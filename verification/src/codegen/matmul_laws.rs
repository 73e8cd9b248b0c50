//! The matrix product kernels compute matrix products.

use crate::bytes::lemma_le_bytes_len;
use crate::codegen::assembler::{at, FloatInst, Inst, MemInst, SseInst};
use crate::codegen::avx2_enc::Ymm;
use crate::codegen::frame_laws::{
    apart, entered, in_range, is_pointer, left, lemma_enter, lemma_index, lemma_leave, same_outside,
};
use crate::codegen::kernels::{
    bind_code, counted, epilogue_code, frame_extra, index_code, matmul_avx2_code,
    matmul_avx2_columns, matmul_avx2_rows, matmul_avx2_terms, matmul_body_code,
    matmul_body_columns, matmul_body_rows, matmul_body_terms, prologue_code, sse, vmem, vps,
};
use crate::codegen::machine::{
    after_turn, bytes_at, lane_bytes, last_count, lemma_addss, lemma_lanes_back, lemma_loop,
    lemma_movss_load, lemma_movss_store, lemma_mulss_load, lemma_run_concat, lemma_run_none,
    lemma_run_op, lemma_run_single, lemma_vbroadcastss, lemma_vfmadd_mem, lemma_vmovups_store,
    lemma_vxorps, lemma_word_back, lemma_xorps_self, run, run_one, step, word_at, word_count, words,
    written, Fpu, Machine,
};
use crate::codegen::x86_64::Abi;
use crate::codegen::x86_64_enc::{Reg, Scale, Xmm};
use vstd::prelude::*;

verus! {

/// The first terms of row `i` times column `j`, summed from the left.
pub open spec fn dot(
    fpu: Fpu,
    a: Seq<u32>,
    b: Seq<u32>,
    k: int,
    n: int,
    i: int,
    j: int,
    terms: nat,
) -> u32
    decreases terms,
{
    if terms == 0 {
        0
    } else {
        let t = terms - 1;
        (fpu.add)(dot(fpu, a, b, k, n, i, j, t as nat), (fpu.mul)(a[i * k + t], b[t * n + j]))
    }
}

/// The product of an `m x k` and a `k x n` matrix, in rows.
pub open spec fn product(fpu: Fpu, a: Seq<u32>, b: Seq<u32>, m: nat, k: nat, n: nat) -> Seq<u32> {
    Seq::new(
        m * n,
        |x: int| dot(fpu, a, b, k as int, n as int, x / (n as int), x % (n as int), k),
    )
}

/// As [`dot`], with each product added and rounded at once.
pub open spec fn fused_dot(
    fpu: Fpu,
    a: Seq<u32>,
    b: Seq<u32>,
    k: int,
    n: int,
    i: int,
    j: int,
    terms: nat,
) -> u32
    decreases terms,
{
    if terms == 0 {
        0
    } else {
        let t = terms - 1;
        (fpu.fma)(a[i * k + t], b[t * n + j], fused_dot(fpu, a, b, k, n, i, j, t as nat))
    }
}

/// As [`product`], with fused sums.
pub open spec fn fused_product(
    fpu: Fpu,
    a: Seq<u32>,
    b: Seq<u32>,
    m: nat,
    k: nat,
    n: nat,
) -> Seq<u32> {
    Seq::new(
        m * n,
        |x: int| fused_dot(fpu, a, b, k as int, n as int, x / (n as int), x % (n as int), k),
    )
}

/// A product under way: where the matrices are and what they hold, and what
/// each entry of the output is to be.
pub struct Task {
    pub m: int,
    pub k: int,
    pub n: int,
    pub lhs: int,
    pub rhs: int,
    pub out: int,
    pub a: Seq<u32>,
    pub b: Seq<u32>,
    pub sp: int,
    pub bp: int,
    pub vecs: Map<u8, Seq<u32>>,
    pub entry: spec_fn(int) -> u32,
}

/// Two ranges of addresses do not meet.
pub open spec fn disjoint(p: int, plen: int, q: int, qlen: int) -> bool {
    p + plen <= q || q + qlen <= p
}

impl Task {
    /// The sizes are 32-bit numbers, the buffers lie in memory, and the output
    /// does not meet the inputs.
    pub open spec fn ok(self) -> bool {
        &&& 0 <= self.m < 0x8000_0000
        &&& 0 <= self.k < 0x8000_0000
        &&& 0 <= self.n < 0x8000_0000
        &&& 0 <= self.lhs && self.lhs + 4 * (self.m * self.k) <= word_count()
        &&& 0 <= self.rhs && self.rhs + 4 * (self.k * self.n) <= word_count()
        &&& 0 <= self.out && self.out + 4 * (self.m * self.n) <= word_count()
        &&& disjoint(self.lhs, 4 * (self.m * self.k), self.out, 4 * (self.m * self.n))
        &&& disjoint(self.rhs, 4 * (self.k * self.n), self.out, 4 * (self.m * self.n))
    }

    /// What the loops rely on throughout.
    pub open spec fn steady(self, t: Machine) -> bool {
        &&& in_range(t)
        &&& t.regs[Reg::R12] == self.lhs
        &&& t.regs[Reg::R13] == self.rhs
        &&& t.regs[Reg::R14] == self.out
        &&& t.regs[Reg::RSP] == self.sp
        &&& t.regs[Reg::RBP] == self.bp
        &&& forall|v: u8| v >= 6 ==> #[trigger] t.vecs[v] == self.vecs[v]
        &&& forall|x: int|
            0 <= x < self.m * self.k ==> #[trigger] word_at(t.mem, self.lhs + 4 * x) == self.a[x]
        &&& forall|x: int|
            0 <= x < self.k * self.n ==> #[trigger] word_at(t.mem, self.rhs + 4 * x) == self.b[x]
    }

    /// The first `count` entries of the output are there, and nothing was
    /// written outside of it.
    pub open spec fn done(
        self,
        mem0: spec_fn(int) -> u8,
        mem: spec_fn(int) -> u8,
        count: int,
    ) -> bool {
        &&& forall|x: int|
            0 <= x < count ==> #[trigger] word_at(mem, self.out + 4 * x) == (self.entry)(x)
        &&& same_outside(mem0, mem, self.out, self.out + 4 * (self.m * self.n))
    }
}

/// Positions in a matrix of `rows x cols`.
pub(crate) proof fn lemma_position(rows: int, cols: int, i: int, j: int)
    requires
        0 <= i < rows,
        0 <= j < cols,
    ensures
        0 <= i * cols + j < rows * cols,
        0 <= i * cols,
        i * cols + cols <= rows * cols,
        (i * cols + j) / cols == i,
        (i * cols + j) % cols == j,
{
    assert(i * cols + cols <= rows * cols && 0 <= i * cols) by (nonlinear_arith)
        requires
            0 <= i < rows,
            0 <= cols,
    ;
    vstd::arithmetic::div_mod::lemma_fundamental_div_mod_converse(i * cols + j, cols, i, j);
}

/// A position is a 64-bit number with room to spare.
pub(crate) proof fn lemma_small(rows: int, cols: int)
    requires
        0 <= rows < 0x8000_0000,
        0 <= cols < 0x8000_0000,
    ensures
        0 <= rows * cols < 0x4000_0000_0000_0000,
{
    assert(0 <= rows * cols < 0x4000_0000_0000_0000) by (nonlinear_arith)
        requires
            0 <= rows < 0x8000_0000,
            0 <= cols < 0x8000_0000,
    ;
}

/// The matrices stay what they are while the output is written.
pub(crate) proof fn lemma_inputs_stay(x: Task, t: Machine, u: Machine)
    requires
        x.ok(),
        x.steady(t),
        u.regs[Reg::R12] == x.lhs,
        u.regs[Reg::R13] == x.rhs,
        u.regs[Reg::R14] == x.out,
        u.regs[Reg::RSP] == x.sp,
        u.regs[Reg::RBP] == x.bp,
        forall|v: u8| v >= 6 ==> #[trigger] u.vecs[v] == x.vecs[v],
        in_range(u),
        same_outside(t.mem, u.mem, x.out, x.out + 4 * (x.m * x.n)),
    ensures
        x.steady(u),
{
    assert forall|i: int| 0 <= i < x.m * x.k implies #[trigger] word_at(u.mem, x.lhs + 4 * i)
        == x.a[i] by {
        assert(bytes_at(u.mem, x.lhs + 4 * i, 4) =~= bytes_at(t.mem, x.lhs + 4 * i, 4));
        assert(word_at(t.mem, x.lhs + 4 * i) == x.a[i]);
    }
    assert forall|i: int| 0 <= i < x.k * x.n implies #[trigger] word_at(u.mem, x.rhs + 4 * i)
        == x.b[i] by {
        assert(bytes_at(u.mem, x.rhs + 4 * i, 4) =~= bytes_at(t.mem, x.rhs + 4 * i, 4));
        assert(word_at(t.mem, x.rhs + 4 * i) == x.b[i]);
    }
}

/// Writing the next `c` entries of the output.
pub(crate) proof fn lemma_extend(
    x: Task,
    mem0: spec_fn(int) -> u8,
    mem: spec_fn(int) -> u8,
    next: spec_fn(int) -> u8,
    from: int,
    c: int,
)
    requires
        x.done(mem0, mem, from),
        0 <= from,
        0 <= c,
        from + c <= x.m * x.n,
        same_outside(mem, next, x.out + 4 * from, x.out + 4 * (from + c)),
        forall|l: int|
            0 <= l < c ==> #[trigger] word_at(next, x.out + 4 * (from + l)) == (x.entry)(from + l),
    ensures
        x.done(mem0, next, from + c),
{
    assert forall|i: int| 0 <= i < from + c implies #[trigger] word_at(next, x.out + 4 * i) == (
    x.entry)(i) by {
        if i < from {
            assert(bytes_at(next, x.out + 4 * i, 4) =~= bytes_at(mem, x.out + 4 * i, 4));
            assert(word_at(mem, x.out + 4 * i) == (x.entry)(i));
        } else {
            let l = i - from;
            assert(word_at(next, x.out + 4 * (from + l)) == (x.entry)(from + l));
        }
    }
    assert forall|q: int| !(x.out <= q < x.out + 4 * (x.m * x.n)) implies #[trigger] next(q)
        == mem0(q) by {
        assert(next(q) == mem(q));
        assert(mem(q) == mem0(q));
    }
}

/// A loop whose step divides its bound ends at the bound.
pub(crate) proof fn lemma_last_count(bound: int, by: int)
    requires
        by > 0,
        bound >= 0,
        bound % by == 0,
    ensures
        last_count(bound, by) == bound,
{
    if bound > 0 {
        let q = bound / by;
        assert(bound == q * by) by (nonlinear_arith)
            requires
                by > 0,
                bound % by == 0,
                q == bound / by,
        ;
        assert((bound + by - 1) / by == q) by (nonlinear_arith)
            requires
                by > 0,
                bound == q * by,
        ;
    }
}

// ---- the scalar kernel ----------------------------------------------------------------

/// Before term `c` of entry `(i, j)`.
spec fn terms_inv(
    x: Task,
    fpu: Fpu,
    i: int,
    j: int,
    mem0: spec_fn(int) -> u8,
    c: int,
    t: Machine,
) -> bool {
    &&& x.steady(t)
    &&& t.regs[Reg::R15] == i
    &&& t.regs[Reg::RBX] == j
    &&& t.regs[Reg::RCX] == c
    &&& 0 <= c <= x.k
    &&& t.mem == mem0
    &&& t.vecs[0][0] == dot(fpu, x.a, x.b, x.k, x.n, i, j, c as nat)
}

proof fn lemma_term(
    x: Task,
    fpu: Fpu,
    fuel: nat,
    i: int,
    j: int,
    mem0: spec_fn(int) -> u8,
    c: int,
    t: Machine,
)
    requires
        x.ok(),
        0 <= i < x.m,
        0 <= j < x.n,
        c < x.k,
        terms_inv(x, fpu, i, j, mem0, c, t),
    ensures
        after_turn(
            Reg::RCX,
            1,
            matmul_body_terms(x.k as i32, x.n as i32),
            fpu,
            fuel,
            t,
        ) matches Some(u) && terms_inv(x, fpu, i, j, mem0, c + 1, u),
{
    let k = x.k as i32;
    let n = x.n as i32;
    lemma_position(x.m, x.k, i, c);
    lemma_position(x.k, x.n, c, j);
    lemma_small(x.m, x.k);
    lemma_small(x.k, x.n);
    let pa = i * x.k + c;
    let pb = c * x.n + j;
    let ca = index_code(Reg::RAX, Reg::R15, k, Reg::RCX);
    let ma = at(Reg::R12, Reg::RAX, Scale::S4, 0);
    let mb = at(Reg::R13, Reg::RDX, Scale::S4, 0);
    let cb = seq![sse(SseInst::MovssLoad(Xmm(1), ma))];
    let cc = index_code(Reg::RDX, Reg::RCX, n, Reg::RBX);
    let cd = seq![
        sse(SseInst::MulssLoad(Xmm(1), mb)),
        sse(SseInst::AddssXmm(Xmm(0), Xmm(1))),
    ];
    lemma_index(Reg::RAX, Reg::R15, k, Reg::RCX, fpu, fuel, t, pa);
    let s1 = Machine { regs: t.regs.insert(Reg::RAX, pa), ..t };
    let s2 = step(Inst::Sse(SseInst::MovssLoad(Xmm(1), ma)), fpu, s1);
    lemma_movss_load(Xmm(1), ma, fpu, s1);
    lemma_run_concat(ca, cb, fpu, fuel, t);
    lemma_run_op(cb, fpu, fuel, s1);
    lemma_run_none(cb.drop_first(), fpu, fuel, s2);
    assert(s1.addr(ma) == x.lhs + 4 * pa);
    assert(s2.vecs[1][0] == x.a[pa]);
    assert(in_range(s2));
    lemma_index(Reg::RDX, Reg::RCX, n, Reg::RBX, fpu, fuel, s2, pb);
    let s3 = Machine { regs: s2.regs.insert(Reg::RDX, pb), ..s2 };
    lemma_run_concat(ca + cb, cc, fpu, fuel, t);
    let s4 = step(Inst::Sse(SseInst::MulssLoad(Xmm(1), mb)), fpu, s3);
    let s5 = step(Inst::Sse(SseInst::AddssXmm(Xmm(0), Xmm(1))), fpu, s4);
    lemma_mulss_load(Xmm(1), mb, fpu, s3);
    lemma_addss(Xmm(0), Xmm(1), fpu, s4);
    lemma_run_concat(ca + cb + cc, cd, fpu, fuel, t);
    lemma_run_op(cd, fpu, fuel, s3);
    lemma_run_op(cd.drop_first(), fpu, fuel, s4);
    lemma_run_none(cd.drop_first().drop_first(), fpu, fuel, s5);
    assert(s3.addr(mb) == x.rhs + 4 * pb);
    assert(s4.vecs[1][0] == (fpu.mul)(x.a[pa], x.b[pb]));
    assert(s5.vecs[0][0] == dot(fpu, x.a, x.b, x.k, x.n, i, j, (c + 1) as nat));
    let u = s5.set(Reg::RCX, s5.regs[Reg::RCX] + 1);
    assert(run(matmul_body_terms(k, n), fpu, fuel, t) == Some(s5));
    assert(in_range(u));
}

/// Before entry `j` of row `i`.
spec fn columns_inv(x: Task, i: int, mem0: spec_fn(int) -> u8, j: int, t: Machine) -> bool {
    &&& x.steady(t)
    &&& t.regs[Reg::R15] == i
    &&& t.regs[Reg::RBX] == j
    &&& 0 <= j <= x.n
    &&& x.done(mem0, t.mem, i * x.n + j)
}

/// The entries of a task are those of the product.
spec fn is_product(x: Task, fpu: Fpu) -> bool {
    forall|p: int|
        0 <= p < x.m * x.n ==> #[trigger] (x.entry)(p) == dot(
            fpu,
            x.a,
            x.b,
            x.k,
            x.n,
            p / x.n,
            p % x.n,
            x.k as nat,
        )
}

#[verifier::rlimit(40)]
proof fn lemma_column(
    x: Task,
    fpu: Fpu,
    fuel: nat,
    i: int,
    mem0: spec_fn(int) -> u8,
    j: int,
    t: Machine,
)
    requires
        x.ok(),
        is_product(x, fpu),
        fuel > x.k + 1,
        0 <= i < x.m,
        j < x.n,
        columns_inv(x, i, mem0, j, t),
    ensures
        after_turn(
            Reg::RBX,
            1,
            matmul_body_columns(x.k as i32, x.n as i32),
            fpu,
            fuel,
            t,
        ) matches Some(u) && columns_inv(x, i, mem0, j + 1, u),
{
    let k = x.k as i32;
    let n = x.n as i32;
    let body = matmul_body_terms(k, n);
    let zero = seq![sse(SseInst::XorpsSelf(Xmm(0)))];
    let terms = seq![counted(Reg::RCX, k, 1, body)];
    let place = index_code(Reg::RAX, Reg::R15, n, Reg::RBX);
    let mo = at(Reg::R14, Reg::RAX, Scale::S4, 0);
    let put = seq![sse(SseInst::MovssStore(Xmm(0), mo))];
    let p = i * x.n + j;
    lemma_position(x.m, x.n, i, j);
    lemma_small(x.m, x.n);

    let s1 = step(Inst::Sse(SseInst::XorpsSelf(Xmm(0))), fpu, t);
    lemma_xorps_self(Xmm(0), fpu, t);
    lemma_run_op(zero, fpu, fuel, t);
    lemma_run_none(zero.drop_first(), fpu, fuel, s1);
    assert(in_range(s1));

    let inv = |c: int, u: Machine| terms_inv(x, fpu, i, j, t.mem, c, u);
    assert forall|c: int, u: Machine| #[trigger]
        inv(c, u) && 0 <= c < k && c % 1 == 0 implies (after_turn(
        Reg::RCX,
        1,
        body,
        fpu,
        fuel,
        u,
    ) matches Some(w) && inv(c + 1, w)) by {
        lemma_term(x, fpu, fuel, i, j, t.mem, c, u);
    }
    assert(s1.vecs[0][0] == 0);
    assert(in_range(s1.set(Reg::RCX, 0)));
    assert(inv(0, s1.set(Reg::RCX, 0)));
    lemma_loop(Reg::RCX, k, 1, body, fpu, fuel, s1, inv);
    lemma_last_count(x.k, 1);
    lemma_run_single(terms[0], fpu, fuel, s1);
    let s2 = run_one(terms[0], fpu, fuel, s1)->0;
    assert(inv(x.k, s2));
    lemma_run_concat(zero, terms, fpu, fuel, t);

    lemma_index(Reg::RAX, Reg::R15, n, Reg::RBX, fpu, fuel, s2, p);
    let s3 = Machine { regs: s2.regs.insert(Reg::RAX, p), ..s2 };
    lemma_run_concat(zero + terms, place, fpu, fuel, t);

    let s4 = step(Inst::Sse(SseInst::MovssStore(Xmm(0), mo)), fpu, s3);
    lemma_movss_store(Xmm(0), mo, fpu, s3);
    lemma_run_concat(zero + terms + place, put, fpu, fuel, t);
    lemma_run_op(put, fpu, fuel, s3);
    lemma_run_none(put.drop_first(), fpu, fuel, s4);
    assert(s3.addr(mo) == x.out + 4 * p);
    let v = s3.vecs[0][0];
    lemma_le_bytes_len(v as nat, 4);
    lemma_word_back(s3.mem, x.out + 4 * p, v);
    assert(same_outside(t.mem, s4.mem, x.out + 4 * p, x.out + 4 * (p + 1)));
    assert((x.entry)(p) == v);
    assert forall|l: int| 0 <= l < 1 implies #[trigger] word_at(s4.mem, x.out + 4 * (p + l)) == (
    x.entry)(p + l) by {
        assert(l == 0);
    }
    lemma_extend(x, mem0, t.mem, s4.mem, p, 1);
    let u = s4.set(Reg::RBX, s4.regs[Reg::RBX] + 1);
    assert(run(matmul_body_columns(k, n), fpu, fuel, t) == Some(s4));
    assert(in_range(u));
    assert(same_outside(t.mem, u.mem, x.out, x.out + 4 * (x.m * x.n)));
    lemma_inputs_stay(x, t, u);
}

/// Before row `i`.
spec fn rows_inv(x: Task, mem0: spec_fn(int) -> u8, i: int, t: Machine) -> bool {
    &&& x.steady(t)
    &&& t.regs[Reg::R15] == i
    &&& 0 <= i <= x.m
    &&& x.done(mem0, t.mem, i * x.n)
}

proof fn lemma_row(
    x: Task,
    fpu: Fpu,
    fuel: nat,
    mem0: spec_fn(int) -> u8,
    i: int,
    t: Machine,
)
    requires
        x.ok(),
        is_product(x, fpu),
        fuel > x.k + 1,
        fuel > x.n + 1,
        i < x.m,
        rows_inv(x, mem0, i, t),
    ensures
        after_turn(
            Reg::R15,
            1,
            matmul_body_rows(x.k as i32, x.n as i32),
            fpu,
            fuel,
            t,
        ) matches Some(u) && rows_inv(x, mem0, i + 1, u),
{
    let k = x.k as i32;
    let n = x.n as i32;
    let body = matmul_body_columns(k, n);
    let code = matmul_body_rows(k, n);
    let inv = |j: int, u: Machine| columns_inv(x, i, mem0, j, u);
    assert forall|j: int, u: Machine| #[trigger]
        inv(j, u) && 0 <= j < n && j % 1 == 0 implies (after_turn(
        Reg::RBX,
        1,
        body,
        fpu,
        fuel,
        u,
    ) matches Some(w) && inv(j + 1, w)) by {
        lemma_column(x, fpu, fuel, i, mem0, j, u);
    }
    let s0 = t.set(Reg::RBX, 0);
    assert(in_range(s0));
    assert(x.steady(s0));
    assert(inv(0, s0));
    lemma_loop(Reg::RBX, n, 1, body, fpu, fuel, t, inv);
    lemma_last_count(x.n, 1);
    lemma_run_single(code[0], fpu, fuel, t);
    assert(code =~= seq![code[0]]);
    let s1 = run_one(code[0], fpu, fuel, t)->0;
    assert(inv(x.n, s1));
    assert((i + 1) * x.n == i * x.n + x.n) by (nonlinear_arith);
    let u = s1.set(Reg::R15, s1.regs[Reg::R15] + 1);
    assert(in_range(u));
    assert(x.steady(u));
}

/// What a caller of a kernel provides: pointers to buffers that lie in memory
/// apart from each other and from the stack, and room on the stack.
pub open spec fn called(
    s: Machine,
    lhs: Reg,
    lhs_len: int,
    rhs: Reg,
    rhs_len: int,
    out: Reg,
    out_len: int,
    abi: Abi,
) -> bool {
    let sp = s.regs[Reg::RSP];
    &&& in_range(s)
    &&& is_pointer(lhs)
    &&& is_pointer(rhs)
    &&& is_pointer(out)
    &&& 40 + frame_extra(abi) <= sp < word_count() - 8
    &&& s.regs[lhs] + lhs_len <= word_count()
    &&& s.regs[rhs] + rhs_len <= word_count()
    &&& s.regs[out] + out_len <= word_count()
    &&& disjoint(s.regs[lhs], lhs_len, s.regs[out], out_len)
    &&& disjoint(s.regs[rhs], rhs_len, s.regs[out], out_len)
    &&& apart(sp, s.regs[lhs], s.regs[lhs] + lhs_len)
    &&& apart(sp, s.regs[rhs], s.regs[rhs] + rhs_len)
    &&& apart(sp, s.regs[out], s.regs[out] + out_len)
}

/// The task that a caller sets.
pub open spec fn task_of(
    s: Machine,
    lhs: Reg,
    rhs: Reg,
    out: Reg,
    m: i32,
    k: i32,
    n: i32,
    abi: Abi,
    entry: spec_fn(int) -> u32,
) -> Task {
    Task {
        m: m as int,
        k: k as int,
        n: n as int,
        lhs: s.regs[lhs],
        rhs: s.regs[rhs],
        out: s.regs[out],
        a: words(s.mem, s.regs[lhs], (m * k) as nat),
        b: words(s.mem, s.regs[rhs], (k * n) as nat),
        sp: s.regs[Reg::RSP] - 40 - frame_extra(abi),
        bp: s.regs[Reg::RBP],
        vecs: s.vecs,
        entry,
    }
}

/// On entry to the loops the matrices are in place.
pub(crate) proof fn lemma_entered_steady(
    s: Machine,
    t: Machine,
    lhs: Reg,
    rhs: Reg,
    out: Reg,
    m: i32,
    k: i32,
    n: i32,
    abi: Abi,
    entry: spec_fn(int) -> u32,
)
    requires
        0 <= m,
        0 <= k,
        0 <= n,
        called(s, lhs, 4 * (m * k), rhs, 4 * (k * n), out, 4 * (m * n), abi),
        entered(s, t, frame_extra(abi) as int, lhs, rhs, out),
    ensures
        task_of(s, lhs, rhs, out, m, k, n, abi, entry).ok(),
        task_of(s, lhs, rhs, out, m, k, n, abi, entry).steady(t),
        task_of(s, lhs, rhs, out, m, k, n, abi, entry).done(t.mem, t.mem, 0),
{
    let x = task_of(s, lhs, rhs, out, m, k, n, abi, entry);
    assert(0 <= s.regs[lhs] && 0 <= s.regs[rhs] && 0 <= s.regs[out]);
    lemma_small(m as int, k as int);
    lemma_small(k as int, n as int);
    lemma_small(m as int, n as int);
    assert forall|i: int| 0 <= i < x.m * x.k implies #[trigger] word_at(t.mem, x.lhs + 4 * i)
        == x.a[i] by {
        assert(bytes_at(t.mem, x.lhs + 4 * i, 4) =~= bytes_at(s.mem, x.lhs + 4 * i, 4));
    }
    assert forall|i: int| 0 <= i < x.k * x.n implies #[trigger] word_at(t.mem, x.rhs + 4 * i)
        == x.b[i] by {
        assert(bytes_at(t.mem, x.rhs + 4 * i, 4) =~= bytes_at(s.mem, x.rhs + 4 * i, 4));
    }
}

/// The scalar kernel computes the matrix product, entry by entry from the
/// left, whatever the arithmetic is; it writes nothing but the output and its
/// own part of the stack, and returns with the callee-saved registers as they
/// were.
pub proof fn lemma_matmul_body(
    fpu: Fpu,
    fuel: nat,
    s: Machine,
    lhs: Reg,
    rhs: Reg,
    out: Reg,
    m: i32,
    k: i32,
    n: i32,
    abi: Abi,
)
    requires
        0 <= m,
        0 <= k,
        0 <= n,
        fuel > m + 1,
        fuel > k + 1,
        fuel > n + 1,
        called(s, lhs, 4 * (m * k), rhs, 4 * (k * n), out, 4 * (m * n), abi),
    ensures
        run(matmul_body_code(lhs, rhs, out, m, k, n, abi), fpu, fuel, s) matches Some(t) && {
            &&& left(s, t, s.regs[out], s.regs[out] + 4 * (m * n))
            &&& words(t.mem, s.regs[out], (m * n) as nat) == product(
                fpu,
                words(s.mem, s.regs[lhs], (m * k) as nat),
                words(s.mem, s.regs[rhs], (k * n) as nat),
                m as nat,
                k as nat,
                n as nat,
            )
        },
{
    let extra = frame_extra(abi);
    let a = words(s.mem, s.regs[lhs], (m * k) as nat);
    let b = words(s.mem, s.regs[rhs], (k * n) as nat);
    let want = product(fpu, a, b, m as nat, k as nat, n as nat);
    let x = task_of(s, lhs, rhs, out, m, k, n, abi, |i: int| want[i]);
    let head = prologue_code(extra) + bind_code(lhs, rhs, out);
    let body = matmul_body_rows(k, n);
    let rows = seq![counted(Reg::R15, m, 1, body)];
    lemma_enter(extra, lhs, rhs, out, fpu, fuel, s);
    let t = run(head, fpu, fuel, s)->0;
    lemma_entered_steady(s, t, lhs, rhs, out, m, k, n, abi, x.entry);

    let inv = |i: int, u: Machine| rows_inv(x, t.mem, i, u);
    assert forall|i: int, u: Machine| #[trigger]
        inv(i, u) && 0 <= i < m && i % 1 == 0 implies (after_turn(
        Reg::R15,
        1,
        body,
        fpu,
        fuel,
        u,
    ) matches Some(w) && inv(i + 1, w)) by {
        lemma_row(x, fpu, fuel, t.mem, i, u);
    }
    assert(in_range(t.set(Reg::R15, 0)));
    assert(0 * x.n == 0);
    assert(inv(0, t.set(Reg::R15, 0)));
    lemma_loop(Reg::R15, m, 1, body, fpu, fuel, t, inv);
    lemma_last_count(x.m, 1);
    lemma_run_single(rows[0], fpu, fuel, t);
    let u = run_one(rows[0], fpu, fuel, t)->0;
    assert(inv(x.m, u));
    lemma_run_concat(head, rows, fpu, fuel, s);
    lemma_leave(
        extra,
        fpu,
        fuel,
        s,
        t,
        u,
        lhs,
        rhs,
        out,
        s.regs[out],
        s.regs[out] + 4 * (m * n),
    );
    lemma_run_concat(head + rows, epilogue_code(extra), fpu, fuel, s);
    let v = run(epilogue_code(extra), fpu, fuel, u)->0;
    lemma_small(x.m, x.n);
    assert(words(v.mem, s.regs[out], (m * n) as nat) =~= want);
}

// ---- the kernel with eight columns at a time ------------------------------------------

/// Before term `c` of the entries `(i, j)` to `(i, j + 7)`.
spec fn wide_terms_inv(
    x: Task,
    fpu: Fpu,
    i: int,
    j: int,
    mem0: spec_fn(int) -> u8,
    c: int,
    t: Machine,
) -> bool {
    &&& x.steady(t)
    &&& t.regs[Reg::R15] == i
    &&& t.regs[Reg::RBX] == j
    &&& t.regs[Reg::RCX] == c
    &&& 0 <= c <= x.k
    &&& t.mem == mem0
    &&& forall|l: int|
        0 <= l < 8 ==> #[trigger] t.vecs[0][l] == fused_dot(
            fpu,
            x.a,
            x.b,
            x.k,
            x.n,
            i,
            j + l,
            c as nat,
        )
}

proof fn lemma_wide_term(
    x: Task,
    fpu: Fpu,
    fuel: nat,
    i: int,
    j: int,
    mem0: spec_fn(int) -> u8,
    c: int,
    t: Machine,
)
    requires
        x.ok(),
        0 <= i < x.m,
        0 <= j,
        j + 8 <= x.n,
        c < x.k,
        wide_terms_inv(x, fpu, i, j, mem0, c, t),
    ensures
        after_turn(
            Reg::RCX,
            1,
            matmul_avx2_terms(x.k as i32, x.n as i32),
            fpu,
            fuel,
            t,
        ) matches Some(u) && wide_terms_inv(x, fpu, i, j, mem0, c + 1, u),
{
    let k = x.k as i32;
    let n = x.n as i32;
    lemma_position(x.m, x.k, i, c);
    lemma_position(x.k, x.n, c, j);
    lemma_position(x.k, x.n, c, j + 7);
    lemma_small(x.m, x.k);
    lemma_small(x.k, x.n);
    let pa = i * x.k + c;
    let pb = c * x.n + j;
    let ca = index_code(Reg::RAX, Reg::R15, k, Reg::RCX);
    let ma = at(Reg::R12, Reg::RAX, Scale::S4, 0);
    let mb = at(Reg::R13, Reg::RDX, Scale::S4, 0);
    let cb = seq![vmem(MemInst::Vbroadcastss(Ymm(1), ma))];
    let cc = index_code(Reg::RDX, Reg::RCX, n, Reg::RBX);
    let cd = seq![vmem(MemInst::Vfmadd231psMem(Ymm(0), Ymm(1), mb))];
    lemma_index(Reg::RAX, Reg::R15, k, Reg::RCX, fpu, fuel, t, pa);
    let s1 = Machine { regs: t.regs.insert(Reg::RAX, pa), ..t };
    let s2 = step(Inst::Mem(MemInst::Vbroadcastss(Ymm(1), ma)), fpu, s1);
    lemma_vbroadcastss(Ymm(1), ma, fpu, s1);
    lemma_run_concat(ca, cb, fpu, fuel, t);
    lemma_run_op(cb, fpu, fuel, s1);
    lemma_run_none(cb.drop_first(), fpu, fuel, s2);
    assert(s1.addr(ma) == x.lhs + 4 * pa);
    assert(forall|l: int| 0 <= l < 8 ==> #[trigger] s2.vecs[1][l] == x.a[pa]);
    assert(in_range(s2));
    lemma_index(Reg::RDX, Reg::RCX, n, Reg::RBX, fpu, fuel, s2, pb);
    let s3 = Machine { regs: s2.regs.insert(Reg::RDX, pb), ..s2 };
    lemma_run_concat(ca + cb, cc, fpu, fuel, t);
    let s4 = step(Inst::Mem(MemInst::Vfmadd231psMem(Ymm(0), Ymm(1), mb)), fpu, s3);
    lemma_vfmadd_mem(Ymm(0), Ymm(1), mb, fpu, s3);
    lemma_run_concat(ca + cb + cc, cd, fpu, fuel, t);
    lemma_run_op(cd, fpu, fuel, s3);
    lemma_run_none(cd.drop_first(), fpu, fuel, s4);
    assert(s3.addr(mb) == x.rhs + 4 * pb);
    assert forall|l: int| 0 <= l < 8 implies #[trigger] s4.vecs[0][l] == fused_dot(
        fpu,
        x.a,
        x.b,
        x.k,
        x.n,
        i,
        j + l,
        (c + 1) as nat,
    ) by {
        assert(word_at(s3.mem, x.rhs + 4 * (pb + l)) == x.b[pb + l]);
        assert(x.rhs + 4 * pb + 4 * l == x.rhs + 4 * (pb + l));
        assert(pb + l == c * x.n + (j + l));
        assert(s3.vecs[1][l] == x.a[pa]);
        assert(s3.vecs[0][l] == t.vecs[0][l]);
    }
    let u = s4.set(Reg::RCX, s4.regs[Reg::RCX] + 1);
    assert(run(matmul_avx2_terms(k, n), fpu, fuel, t) == Some(s4));
    assert(in_range(u));
}

/// The entries of a task are those of the fused product.
pub open spec fn is_fused(x: Task, fpu: Fpu) -> bool {
    forall|p: int|
        0 <= p < x.m * x.n ==> #[trigger] (x.entry)(p) == fused_dot(
            fpu,
            x.a,
            x.b,
            x.k,
            x.n,
            p / x.n,
            p % x.n,
            x.k as nat,
        )
}

/// Writing a register with the next eight entries.
pub(crate) proof fn lemma_store_wide(
    x: Task,
    fpu: Fpu,
    mem0: spec_fn(int) -> u8,
    mem: spec_fn(int) -> u8,
    v: Seq<u32>,
    i: int,
    j: int,
)
    requires
        x.ok(),
        is_fused(x, fpu),
        0 <= i < x.m,
        0 <= j,
        j + 8 <= x.n,
        x.done(mem0, mem, i * x.n + j),
        forall|l: int|
            0 <= l < 8 ==> #[trigger] v[l] == fused_dot(
                fpu,
                x.a,
                x.b,
                x.k,
                x.n,
                i,
                j + l,
                x.k as nat,
            ),
    ensures
        ({
            let next = written(mem, x.out + 4 * (i * x.n + j), lane_bytes(v, 8));
            &&& x.done(mem0, next, i * x.n + j + 8)
            &&& same_outside(mem, next, x.out, x.out + 4 * (x.m * x.n))
        }),
{
    let p = i * x.n + j;
    let next = written(mem, x.out + 4 * p, lane_bytes(v, 8));
    lemma_position(x.m, x.n, i, j);
    lemma_position(x.m, x.n, i, j + 7);
    assert forall|l: int| 0 <= l < 8 implies #[trigger] word_at(next, x.out + 4 * (p + l)) == (
    x.entry)(p + l) by {
        lemma_lanes_back(mem, x.out + 4 * p, v, 8, l);
        assert(x.out + 4 * p + 4 * l == x.out + 4 * (p + l));
        assert(p + l == i * x.n + (j + l));
        lemma_position(x.m, x.n, i, j + l);
        assert((x.entry)(p + l) == v[l]);
    }
    lemma_extend(x, mem0, mem, next, p, 8);
}

#[verifier::rlimit(40)]
proof fn lemma_wide_column(
    x: Task,
    fpu: Fpu,
    fuel: nat,
    i: int,
    mem0: spec_fn(int) -> u8,
    j: int,
    t: Machine,
)
    requires
        x.ok(),
        is_fused(x, fpu),
        fuel > x.k + 1,
        0 <= i < x.m,
        j + 8 <= x.n,
        columns_inv(x, i, mem0, j, t),
    ensures
        after_turn(
            Reg::RBX,
            8,
            matmul_avx2_columns(x.k as i32, x.n as i32),
            fpu,
            fuel,
            t,
        ) matches Some(u) && columns_inv(x, i, mem0, j + 8, u),
{
    let k = x.k as i32;
    let n = x.n as i32;
    let body = matmul_avx2_terms(k, n);
    let zero = seq![vps(FloatInst::VxorpsZero(Ymm(0)))];
    let terms = seq![counted(Reg::RCX, k, 1, body)];
    let place = index_code(Reg::RAX, Reg::R15, n, Reg::RBX);
    let mo = at(Reg::R14, Reg::RAX, Scale::S4, 0);
    let put = seq![vmem(MemInst::VmovupsStore(Ymm(0), mo))];
    let p = i * x.n + j;
    lemma_position(x.m, x.n, i, j);
    lemma_position(x.m, x.n, i, j + 7);
    lemma_small(x.m, x.n);

    let s1 = step(Inst::Float(FloatInst::VxorpsZero(Ymm(0))), fpu, t);
    lemma_vxorps(Ymm(0), fpu, t);
    lemma_run_op(zero, fpu, fuel, t);
    lemma_run_none(zero.drop_first(), fpu, fuel, s1);
    assert(in_range(s1));

    let inv = |c: int, u: Machine| wide_terms_inv(x, fpu, i, j, t.mem, c, u);
    assert forall|c: int, u: Machine| #[trigger]
        inv(c, u) && 0 <= c < k && c % 1 == 0 implies (after_turn(
        Reg::RCX,
        1,
        body,
        fpu,
        fuel,
        u,
    ) matches Some(w) && inv(c + 1, w)) by {
        lemma_wide_term(x, fpu, fuel, i, j, t.mem, c, u);
    }
    assert(forall|l: int| 0 <= l < 8 ==> #[trigger] s1.vecs[0][l] == 0);
    assert(in_range(s1.set(Reg::RCX, 0)));
    assert(inv(0, s1.set(Reg::RCX, 0)));
    lemma_loop(Reg::RCX, k, 1, body, fpu, fuel, s1, inv);
    lemma_last_count(x.k, 1);
    lemma_run_single(terms[0], fpu, fuel, s1);
    let s2 = run_one(terms[0], fpu, fuel, s1)->0;
    assert(inv(x.k, s2));
    lemma_run_concat(zero, terms, fpu, fuel, t);

    lemma_index(Reg::RAX, Reg::R15, n, Reg::RBX, fpu, fuel, s2, p);
    let s3 = Machine { regs: s2.regs.insert(Reg::RAX, p), ..s2 };
    lemma_run_concat(zero + terms, place, fpu, fuel, t);

    let s4 = step(Inst::Mem(MemInst::VmovupsStore(Ymm(0), mo)), fpu, s3);
    lemma_vmovups_store(Ymm(0), mo, fpu, s3);
    lemma_run_concat(zero + terms + place, put, fpu, fuel, t);
    lemma_run_op(put, fpu, fuel, s3);
    lemma_run_none(put.drop_first(), fpu, fuel, s4);
    assert(s3.addr(mo) == x.out + 4 * p);
    lemma_store_wide(x, fpu, mem0, t.mem, s3.vecs[0], i, j);
    let u = s4.set(Reg::RBX, s4.regs[Reg::RBX] + 8);
    assert(run(matmul_avx2_columns(k, n), fpu, fuel, t) == Some(s4));
    assert(in_range(u));
    lemma_inputs_stay(x, t, u);
}

proof fn lemma_wide_row(
    x: Task,
    fpu: Fpu,
    fuel: nat,
    mem0: spec_fn(int) -> u8,
    i: int,
    t: Machine,
)
    requires
        x.ok(),
        is_fused(x, fpu),
        x.n % 8 == 0,
        fuel > x.k + 1,
        fuel > x.n + 8,
        i < x.m,
        rows_inv(x, mem0, i, t),
    ensures
        after_turn(
            Reg::R15,
            1,
            matmul_avx2_rows(x.k as i32, x.n as i32),
            fpu,
            fuel,
            t,
        ) matches Some(u) && rows_inv(x, mem0, i + 1, u),
{
    let k = x.k as i32;
    let n = x.n as i32;
    let body = matmul_avx2_columns(k, n);
    let code = matmul_avx2_rows(k, n);
    let inv = |j: int, u: Machine| columns_inv(x, i, mem0, j, u);
    assert forall|j: int, u: Machine| #[trigger]
        inv(j, u) && 0 <= j < n && j % 8 == 0 implies (after_turn(
        Reg::RBX,
        8,
        body,
        fpu,
        fuel,
        u,
    ) matches Some(w) && inv(j + 8, w)) by {
        lemma_wide_column(x, fpu, fuel, i, mem0, j, u);
    }
    let s0 = t.set(Reg::RBX, 0);
    assert(in_range(s0));
    assert(x.steady(s0));
    assert(inv(0, s0));
    lemma_loop(Reg::RBX, n, 8, body, fpu, fuel, t, inv);
    lemma_last_count(x.n, 8);
    lemma_run_single(code[0], fpu, fuel, t);
    assert(code =~= seq![code[0]]);
    let s1 = run_one(code[0], fpu, fuel, t)->0;
    assert(inv(x.n, s1));
    assert((i + 1) * x.n == i * x.n + x.n) by (nonlinear_arith);
    let u = s1.set(Reg::R15, s1.regs[Reg::R15] + 1);
    assert(in_range(u));
    assert(x.steady(u));
}

/// The output of a kernel that computes the fused product.
pub open spec fn gives_fused_product(
    fpu: Fpu,
    s: Machine,
    t: Machine,
    lhs: Reg,
    rhs: Reg,
    out: Reg,
    m: i32,
    k: i32,
    n: i32,
) -> bool {
    &&& left(s, t, s.regs[out], s.regs[out] + 4 * (m * n))
    &&& words(t.mem, s.regs[out], (m * n) as nat) == fused_product(
        fpu,
        words(s.mem, s.regs[lhs], (m * k) as nat),
        words(s.mem, s.regs[rhs], (k * n) as nat),
        m as nat,
        k as nat,
        n as nat,
    )
}

/// The task of a fused product.
pub open spec fn fused_task(
    fpu: Fpu,
    s: Machine,
    lhs: Reg,
    rhs: Reg,
    out: Reg,
    m: i32,
    k: i32,
    n: i32,
    abi: Abi,
) -> Task {
    let want = fused_product(
        fpu,
        words(s.mem, s.regs[lhs], (m * k) as nat),
        words(s.mem, s.regs[rhs], (k * n) as nat),
        m as nat,
        k as nat,
        n as nat,
    );
    task_of(s, lhs, rhs, out, m, k, n, abi, |i: int| want[i])
}

pub(crate) proof fn lemma_fused_task(
    fpu: Fpu,
    s: Machine,
    lhs: Reg,
    rhs: Reg,
    out: Reg,
    m: i32,
    k: i32,
    n: i32,
    abi: Abi,
)
    requires
        0 <= m,
        0 <= k,
        0 <= n,
    ensures
        is_fused(fused_task(fpu, s, lhs, rhs, out, m, k, n, abi), fpu),
{
    let x = fused_task(fpu, s, lhs, rhs, out, m, k, n, abi);
    assert(0 <= x.m * x.n) by (nonlinear_arith)
        requires
            0 <= x.m,
            0 <= x.n,
    ;
}

/// From the loops to the end of a kernel that has filled its output.
pub(crate) proof fn lemma_fused_end(
    fpu: Fpu,
    fuel: nat,
    s: Machine,
    t: Machine,
    u: Machine,
    lhs: Reg,
    rhs: Reg,
    out: Reg,
    m: i32,
    k: i32,
    n: i32,
    abi: Abi,
)
    requires
        0 <= m,
        0 <= k,
        0 <= n,
        called(s, lhs, 4 * (m * k), rhs, 4 * (k * n), out, 4 * (m * n), abi),
        entered(s, t, frame_extra(abi) as int, lhs, rhs, out),
        fused_task(fpu, s, lhs, rhs, out, m, k, n, abi).steady(u),
        fused_task(fpu, s, lhs, rhs, out, m, k, n, abi).done(t.mem, u.mem, m * n),
    ensures
        run(epilogue_code(frame_extra(abi)), fpu, fuel, u) matches Some(v) && gives_fused_product(
            fpu,
            s,
            v,
            lhs,
            rhs,
            out,
            m,
            k,
            n,
        ),
{
    let extra = frame_extra(abi);
    let x = fused_task(fpu, s, lhs, rhs, out, m, k, n, abi);
    lemma_leave(
        extra,
        fpu,
        fuel,
        s,
        t,
        u,
        lhs,
        rhs,
        out,
        s.regs[out],
        s.regs[out] + 4 * (m * n),
    );
    let v = run(epilogue_code(extra), fpu, fuel, u)->0;
    lemma_small(x.m, x.n);
    assert(words(v.mem, s.regs[out], (m * n) as nat) =~= fused_product(
        fpu,
        x.a,
        x.b,
        m as nat,
        k as nat,
        n as nat,
    ));
}

/// The kernel with eight columns at a time computes the fused product, where
/// the number of columns is a multiple of eight.
pub proof fn lemma_matmul_avx2(
    fpu: Fpu,
    fuel: nat,
    s: Machine,
    lhs: Reg,
    rhs: Reg,
    out: Reg,
    m: i32,
    k: i32,
    n: i32,
    abi: Abi,
)
    requires
        0 <= m,
        0 <= k,
        0 <= n,
        n % 8 == 0,
        fuel > m + 1,
        fuel > k + 1,
        fuel > n + 8,
        called(s, lhs, 4 * (m * k), rhs, 4 * (k * n), out, 4 * (m * n), abi),
    ensures
        run(matmul_avx2_code(lhs, rhs, out, m, k, n, abi), fpu, fuel, s) matches Some(t)
            && gives_fused_product(fpu, s, t, lhs, rhs, out, m, k, n),
{
    let extra = frame_extra(abi);
    let x = fused_task(fpu, s, lhs, rhs, out, m, k, n, abi);
    let head = prologue_code(extra) + bind_code(lhs, rhs, out);
    let body = matmul_avx2_rows(k, n);
    let rows = seq![counted(Reg::R15, m, 1, body)];
    lemma_enter(extra, lhs, rhs, out, fpu, fuel, s);
    let t = run(head, fpu, fuel, s)->0;
    lemma_entered_steady(s, t, lhs, rhs, out, m, k, n, abi, x.entry);
    lemma_fused_task(fpu, s, lhs, rhs, out, m, k, n, abi);

    let inv = |i: int, u: Machine| rows_inv(x, t.mem, i, u);
    assert forall|i: int, u: Machine| #[trigger]
        inv(i, u) && 0 <= i < m && i % 1 == 0 implies (after_turn(
        Reg::R15,
        1,
        body,
        fpu,
        fuel,
        u,
    ) matches Some(w) && inv(i + 1, w)) by {
        lemma_wide_row(x, fpu, fuel, t.mem, i, u);
    }
    assert(in_range(t.set(Reg::R15, 0)));
    assert(0 * x.n == 0);
    assert(inv(0, t.set(Reg::R15, 0)));
    lemma_loop(Reg::R15, m, 1, body, fpu, fuel, t, inv);
    lemma_last_count(x.m, 1);
    lemma_run_single(rows[0], fpu, fuel, t);
    let u = run_one(rows[0], fpu, fuel, t)->0;
    assert(inv(x.m, u));
    lemma_run_concat(head, rows, fpu, fuel, s);
    lemma_fused_end(fpu, fuel, s, t, u, lhs, rhs, out, m, k, n, abi);
    lemma_run_concat(head + rows, epilogue_code(extra), fpu, fuel, s);
}

} // verus!
