//! What the kernels on Q8_0 data have in common: the data in memory, the sums
//! of lanes, and the loop over rows.

use crate::bytes::le_value;
use crate::codegen::assembler::{at, Code, FloatInst, Inst, IntInst, SseInst};
use crate::codegen::avx2_enc::Ymm;
use crate::codegen::frame_laws::{in_range, left, lemma_leave, entered, same_outside};
use crate::codegen::kernels::{
    combine4_code, counted, epilogue_code, frame_extra, hsum_code, q8_offset_code, sse,
};
use crate::codegen::machine::{
    after_turn, bytes_at, half_of, lemma_add_rr, lemma_imul, lemma_loop, lemma_mov_rr,
    lemma_movss_store, lemma_run_none, lemma_run_op, lemma_run_single, lemma_vaddps, lemma_vaddss,
    lemma_vextractf128, lemma_vhaddps, lemma_word_back, low, run, run_one, signed32, signed8, step,
    word_at, word_count, words, Fpu, Machine,
};
use crate::codegen::matmul_laws::{called, disjoint, lemma_last_count};
use crate::codegen::x86_64::Abi;
use crate::codegen::x86_64_enc::{Reg, Scale, Xmm};
use vstd::prelude::*;

verus! {

// ---- the data -------------------------------------------------------------------------

/// The scale of block `b` of the data at `at`: the bits of an fp16 number.
pub open spec fn scale_bits(mem: spec_fn(int) -> u8, at: int, b: int) -> u16 {
    (mem(at + 34 * b) + 256 * mem(at + 34 * b + 1)) as u16
}

/// Element `e` of block `b` before scaling.
pub open spec fn quant(mem: spec_fn(int) -> u8, at: int, b: int, e: int) -> int {
    signed8(mem(at + 34 * b + 2 + e))
}

/// Element `e` of block `b`.
pub open spec fn weight(fpu: Fpu, mem: spec_fn(int) -> u8, at: int, b: int, e: int) -> u32 {
    (fpu.mul)((fpu.from_int)(quant(mem, at, b, e)), (fpu.widen)(scale_bits(mem, at, b)))
}

/// The elements of the blocks at `at`.
pub open spec fn weights(fpu: Fpu, mem: spec_fn(int) -> u8, at: int, count: nat) -> Seq<u32> {
    Seq::new(count, |p: int| weight(fpu, mem, at, p / 32, p % 32))
}

/// A small number survives its way through a lane.
pub(crate) proof fn lemma_signed_low(v: int)
    requires
        -0x8000_0000 <= v < 0x8000_0000,
    ensures
        signed32(low(v)) == v,
{
    if v < 0 {
        vstd::arithmetic::div_mod::lemma_fundamental_div_mod_converse(
            v,
            0x1_0000_0000,
            -1,
            v + 0x1_0000_0000,
        );
    } else {
        vstd::arithmetic::div_mod::lemma_small_mod(v as nat, 0x1_0000_0000);
    }
}

/// The low half of a word is its first two bytes.
pub(crate) proof fn lemma_low_half(mem: spec_fn(int) -> u8, at: int)
    ensures
        half_of(word_at(mem, at), 0) == (mem(at) + 256 * mem(at + 1)) as u16,
{
    let s = bytes_at(mem, at, 4);
    let s1 = s.drop_first();
    let s2 = s1.drop_first();
    let s3 = s2.drop_first();
    let s4 = s3.drop_first();
    reveal_with_fuel(le_value, 5);
    assert(s[0] == mem(at) && s1[0] == mem(at + 1) && s2[0] == mem(at + 2) && s3[0] == mem(at + 3));
    assert(s4.len() == 0);
    assert(le_value(s) == mem(at) + 256 * mem(at + 1) + 65536 * mem(at + 2) + 16777216 * mem(
        at + 3,
    ));
    let v = word_at(mem, at);
    assert(v == mem(at) + 256 * mem(at + 1) + 65536 * mem(at + 2) + 16777216 * mem(at + 3));
}

// ---- sums of lanes ----------------------------------------------------------------------

/// The sum of eight lanes, by pairs.
pub open spec fn lane_sum(fpu: Fpu, v: spec_fn(int) -> u32) -> u32 {
    (fpu.add)(
        (fpu.add)((fpu.add)(v(0), v(1)), (fpu.add)(v(2), v(3))),
        (fpu.add)((fpu.add)(v(4), v(5)), (fpu.add)(v(6), v(7))),
    )
}

/// The horizontal sum leaves the sum of the lanes in the lowest lane.
pub(crate) proof fn lemma_hsum(fpu: Fpu, fuel: nat, s: Machine, v: spec_fn(int) -> u32)
    requires
        in_range(s),
        forall|l: int| 0 <= l < 8 ==> #[trigger] s.vecs[0][l] == v(l),
    ensures
        run(hsum_code(), fpu, fuel, s) matches Some(u) && {
            &&& in_range(u)
            &&& u.regs == s.regs
            &&& u.mem == s.mem
            &&& u.returned == s.returned
            &&& forall|q: u8| q >= 2 ==> #[trigger] u.vecs[q] == s.vecs[q]
            &&& u.vecs[0][0] == lane_sum(fpu, v)
        },
{
    let x = s.vecs[0];
    let c0 = hsum_code();
    let c1 = c0.drop_first();
    let c2 = c1.drop_first();
    let c3 = c2.drop_first();
    let c4 = c3.drop_first();
    let s1 = step(Inst::Float(FloatInst::VhaddpsYmm(Ymm(0), Ymm(0), Ymm(0))), fpu, s);
    lemma_vhaddps(Ymm(0), Ymm(0), Ymm(0), fpu, s);
    lemma_run_op(c0, fpu, fuel, s);
    let s2 = step(Inst::Float(FloatInst::VhaddpsYmm(Ymm(0), Ymm(0), Ymm(0))), fpu, s1);
    lemma_vhaddps(Ymm(0), Ymm(0), Ymm(0), fpu, s1);
    lemma_run_op(c1, fpu, fuel, s1);
    let s3 = step(Inst::Float(FloatInst::Vextractf128Xmm(Ymm(1), Ymm(0), 1)), fpu, s2);
    lemma_vextractf128(Ymm(1), Ymm(0), 1, fpu, s2);
    lemma_run_op(c2, fpu, fuel, s2);
    let s4 = step(Inst::Float(FloatInst::VaddssXmm(Ymm(0), Ymm(0), Ymm(1))), fpu, s3);
    lemma_vaddss(Ymm(0), Ymm(0), Ymm(1), fpu, s3);
    lemma_run_op(c3, fpu, fuel, s3);
    lemma_run_none(c4, fpu, fuel, s4);
    assert(x[0] == v(0) && x[1] == v(1) && x[2] == v(2) && x[3] == v(3));
    assert(x[4] == v(4) && x[5] == v(5) && x[6] == v(6) && x[7] == v(7));
    let y = s1.vecs[0];
    assert(y[0] == (fpu.add)(x[0], x[1]));
    assert(y[1] == (fpu.add)(x[2], x[3]));
    assert(y[4] == (fpu.add)(x[4], x[5]));
    assert(y[5] == (fpu.add)(x[6], x[7]));
    let z = s2.vecs[0];
    assert(z[0] == (fpu.add)(y[0], y[1]));
    assert(z[4] == (fpu.add)(y[4], y[5]));
    assert(s3.vecs[1][0] == z[4]);
    assert(s4.vecs[0][0] == (fpu.add)(z[0], z[4]));
}

/// The sum of four registers, lane by lane.
pub open spec fn four_sum(fpu: Fpu, v: spec_fn(int) -> u32, l: int) -> u32 {
    (fpu.add)((fpu.add)(v(l), v(8 + l)), (fpu.add)(v(16 + l), v(24 + l)))
}

/// Lane `l` of the four accumulators, as one sequence of 32.
pub open spec fn four_lanes(s: Machine, v: spec_fn(int) -> u32) -> bool {
    forall|l: int|
        0 <= l < 8 ==> (#[trigger] s.vecs[0][l]) == v(l) && s.vecs[1][l] == v(8 + l)
            && s.vecs[2][l] == v(16 + l) && s.vecs[3][l] == v(24 + l)
}

/// Adding up the four accumulators.
pub(crate) proof fn lemma_combine4(fpu: Fpu, fuel: nat, s: Machine, v: spec_fn(int) -> u32)
    requires
        in_range(s),
        four_lanes(s, v),
    ensures
        run(combine4_code(), fpu, fuel, s) matches Some(u) && {
            &&& in_range(u)
            &&& u.regs == s.regs
            &&& u.mem == s.mem
            &&& u.returned == s.returned
            &&& forall|q: u8| q >= 4 ==> #[trigger] u.vecs[q] == s.vecs[q]
            &&& forall|l: int| 0 <= l < 8 ==> #[trigger] u.vecs[0][l] == four_sum(fpu, v, l)
        },
{
    let c0 = combine4_code();
    let c1 = c0.drop_first();
    let c2 = c1.drop_first();
    let c3 = c2.drop_first();
    let s1 = step(Inst::Float(FloatInst::VaddpsReg(Ymm(0), Ymm(0), Ymm(1))), fpu, s);
    lemma_vaddps(Ymm(0), Ymm(0), Ymm(1), fpu, s);
    lemma_run_op(c0, fpu, fuel, s);
    let s2 = step(Inst::Float(FloatInst::VaddpsReg(Ymm(2), Ymm(2), Ymm(3))), fpu, s1);
    lemma_vaddps(Ymm(2), Ymm(2), Ymm(3), fpu, s1);
    lemma_run_op(c1, fpu, fuel, s1);
    let s3 = step(Inst::Float(FloatInst::VaddpsReg(Ymm(0), Ymm(0), Ymm(2))), fpu, s2);
    lemma_vaddps(Ymm(0), Ymm(0), Ymm(2), fpu, s2);
    lemma_run_op(c2, fpu, fuel, s2);
    lemma_run_none(c3, fpu, fuel, s3);
    assert forall|l: int| 0 <= l < 8 implies #[trigger] s3.vecs[0][l] == four_sum(fpu, v, l) by {
        assert(s.vecs[0][l] == v(l));
        assert(s1.vecs[0][l] == (fpu.add)(v(l), v(8 + l)));
        assert(s2.vecs[2][l] == (fpu.add)(v(16 + l), v(24 + l)));
    }
}

// ---- the loop over rows -----------------------------------------------------------------

/// A product of a matrix and a vector under way: where the operands are, what
/// memory held at first, what it held before the loop over rows, and what each
/// entry of the output is to be.
pub struct Rows {
    pub m: int,
    pub w: int,
    pub w_len: int,
    pub a: int,
    pub a_len: int,
    pub out: int,
    pub sp: int,
    pub bp: int,
    pub vecs: Map<u8, Seq<u32>>,
    pub mem: spec_fn(int) -> u8,
    pub base: spec_fn(int) -> u8,
    pub entry: spec_fn(int) -> u32,
}

impl Rows {
    /// The operands lie in memory, and the output does not meet them.
    pub open spec fn ok(self) -> bool {
        &&& 0 <= self.m
        &&& 0 <= self.w && 0 <= self.w_len && self.w + self.w_len <= word_count()
        &&& 0 <= self.a && 0 <= self.a_len && self.a + self.a_len <= word_count()
        &&& 0 <= self.out && self.out + 4 * self.m <= word_count()
        &&& disjoint(self.w, self.w_len, self.out, 4 * self.m)
        &&& disjoint(self.a, self.a_len, self.out, 4 * self.m)
        &&& forall|q: int|
            self.w <= q < self.w + self.w_len ==> #[trigger] (self.base)(q) == (self.mem)(q)
        &&& forall|q: int|
            self.a <= q < self.a + self.a_len ==> #[trigger] (self.base)(q) == (self.mem)(q)
    }

    /// What the loops rely on throughout.
    pub open spec fn steady(self, t: Machine) -> bool {
        &&& in_range(t)
        &&& t.regs[Reg::R12] == self.w
        &&& t.regs[Reg::R13] == self.a
        &&& t.regs[Reg::R14] == self.out
        &&& t.regs[Reg::RSP] == self.sp
        &&& t.regs[Reg::RBP] == self.bp
        &&& same_outside(self.base, t.mem, self.out, self.out + 4 * self.m)
    }

    /// The vector registers from 6 on are what they were.
    pub open spec fn high(self, t: Machine) -> bool {
        forall|v: u8| v >= 6 ==> #[trigger] t.vecs[v] == self.vecs[v]
    }

    /// The first `i` entries are there.
    pub open spec fn filled(self, mem: spec_fn(int) -> u8, i: int) -> bool {
        forall|p: int|
            0 <= p < i ==> #[trigger] word_at(mem, self.out + 4 * p) == (self.entry)(p)
    }

    /// Before row `i`.
    pub open spec fn before(self, i: int, t: Machine) -> bool {
        &&& self.steady(t)
        &&& t.regs[Reg::R15] == i
        &&& 0 <= i <= self.m
        &&& self.filled(t.mem, i)
    }
}

/// A byte of the weights is what it was at first.
pub(crate) proof fn lemma_weight_byte(x: Rows, t: Machine, q: int)
    requires
        x.ok(),
        x.steady(t),
        x.w <= q < x.w + x.w_len,
    ensures
        (t.mem)(q) == (x.mem)(q),
{
    assert((x.base)(q) == (x.mem)(q));
}

/// A byte of the vector is what it was at first.
pub(crate) proof fn lemma_vector_byte(x: Rows, t: Machine, q: int)
    requires
        x.ok(),
        x.steady(t),
        x.a <= q < x.a + x.a_len,
    ensures
        (t.mem)(q) == (x.mem)(q),
{
    assert((x.base)(q) == (x.mem)(q));
}

/// A word of the weights is what it was at first.
pub(crate) proof fn lemma_weight_word(x: Rows, t: Machine, q: int)
    requires
        x.ok(),
        x.steady(t),
        x.w <= q,
        q + 4 <= x.w + x.w_len,
    ensures
        word_at(t.mem, q) == word_at(x.mem, q),
{
    assert forall|i: int| 0 <= i < 4 implies #[trigger] (t.mem)(q + i) == (x.mem)(q + i) by {
        lemma_weight_byte(x, t, q + i);
    }
    assert(bytes_at(t.mem, q, 4) =~= bytes_at(x.mem, q, 4));
}

/// A word of the vector is what it was at first.
pub(crate) proof fn lemma_vector_word(x: Rows, t: Machine, q: int)
    requires
        x.ok(),
        x.steady(t),
        x.a <= q,
        q + 4 <= x.a + x.a_len,
    ensures
        word_at(t.mem, q) == word_at(x.mem, q),
{
    assert forall|i: int| 0 <= i < 4 implies #[trigger] (t.mem)(q + i) == (x.mem)(q + i) by {
        lemma_vector_byte(x, t, q + i);
    }
    assert(bytes_at(t.mem, q, 4) =~= bytes_at(x.mem, q, 4));
}

/// The scale of a block of the weights.
pub(crate) proof fn lemma_weight_scale(x: Rows, t: Machine, b: int)
    requires
        x.ok(),
        x.steady(t),
        0 <= b,
        34 * b + 34 <= x.w_len,
    ensures
        half_of(word_at(t.mem, x.w + 34 * b), 0) == scale_bits(x.mem, x.w, b),
{
    lemma_low_half(t.mem, x.w + 34 * b);
    lemma_weight_byte(x, t, x.w + 34 * b);
    lemma_weight_byte(x, t, x.w + 34 * b + 1);
}

/// The scale of a block of the vector.
pub(crate) proof fn lemma_vector_scale(x: Rows, t: Machine, b: int)
    requires
        x.ok(),
        x.steady(t),
        0 <= b,
        34 * b + 34 <= x.a_len,
    ensures
        half_of(word_at(t.mem, x.a + 34 * b), 0) == scale_bits(x.mem, x.a, b),
{
    lemma_low_half(t.mem, x.a + 34 * b);
    lemma_vector_byte(x, t, x.a + 34 * b);
    lemma_vector_byte(x, t, x.a + 34 * b + 1);
}

/// Where block `b` of row `i` starts.
pub(crate) proof fn lemma_q8_offset(
    row_bytes: i32,
    fpu: Fpu,
    fuel: nat,
    s: Machine,
    blocks: int,
    i: int,
    b: int,
)
    requires
        in_range(s),
        0 <= blocks,
        row_bytes == 34 * blocks,
        s.regs[Reg::R15] == i,
        s.regs[Reg::R11] == b,
        0 <= i,
        0 <= b,
        34 * (i * blocks + b) < word_count(),
    ensures
        run(q8_offset_code(row_bytes), fpu, fuel, s) == Some(
            Machine {
                regs: s.regs.insert(Reg::RAX, 34 * (i * blocks + b)).insert(Reg::RDX, 34 * b),
                ..s
            },
        ),
        0 <= i * blocks,
{
    let c0 = q8_offset_code(row_bytes);
    let c1 = c0.drop_first();
    let c2 = c1.drop_first();
    let c3 = c2.drop_first();
    let c4 = c3.drop_first();
    let c5 = c4.drop_first();
    let s1 = step(Inst::Int(IntInst::MovRR(Reg::RAX, Reg::R15)), fpu, s);
    lemma_mov_rr(Reg::RAX, Reg::R15, fpu, s);
    lemma_run_op(c0, fpu, fuel, s);
    let s2 = step(Inst::Int(IntInst::ImulRRI(Reg::RAX, Reg::RAX, row_bytes)), fpu, s1);
    lemma_imul(Reg::RAX, Reg::RAX, row_bytes, fpu, s1);
    lemma_run_op(c1, fpu, fuel, s1);
    let s3 = step(Inst::Int(IntInst::MovRR(Reg::RDX, Reg::R11)), fpu, s2);
    lemma_mov_rr(Reg::RDX, Reg::R11, fpu, s2);
    lemma_run_op(c2, fpu, fuel, s2);
    let s4 = step(Inst::Int(IntInst::ImulRRI(Reg::RDX, Reg::RDX, 34)), fpu, s3);
    lemma_imul(Reg::RDX, Reg::RDX, 34, fpu, s3);
    lemma_run_op(c3, fpu, fuel, s3);
    let s5 = step(Inst::Int(IntInst::AddRR(Reg::RAX, Reg::RDX)), fpu, s4);
    lemma_add_rr(Reg::RAX, Reg::RDX, fpu, s4);
    lemma_run_op(c4, fpu, fuel, s4);
    lemma_run_none(c5, fpu, fuel, s5);
    let p = i * row_bytes;
    assert(p == 34 * (i * blocks) && 0 <= i * blocks) by (nonlinear_arith)
        requires
            p == i * row_bytes,
            row_bytes == 34 * blocks,
            0 <= blocks,
            0 <= i,
    ;
    assert(0 <= s.regs[Reg::R15] < word_count() && 0 <= s.regs[Reg::R11] < word_count());
    assert(s1.regs[Reg::RAX] == i);
    assert(s2.regs[Reg::RAX] == p);
    assert(s3.regs[Reg::RDX] == b);
    assert(s4.regs[Reg::RDX] == 34 * b);
    assert(s5.regs[Reg::RAX] == p + 34 * b);
    assert(s5.regs =~= s.regs.insert(Reg::RAX, 34 * (i * blocks + b)).insert(Reg::RDX, 34 * b));
}

/// The blocks of a row lie within the weights.
pub(crate) proof fn lemma_block_place(m: int, blocks: int, i: int, b: int)
    requires
        0 <= i < m,
        0 <= b < blocks,
    ensures
        0 <= i * blocks + b,
        i * blocks + b + 1 <= m * blocks,
{
    assert(i * blocks + blocks <= m * blocks && 0 <= i * blocks) by (nonlinear_arith)
        requires
            0 <= i < m,
            0 <= blocks,
    ;
}

/// The store at the end of a row.
pub(crate) proof fn lemma_row_store(x: Rows, fpu: Fpu, fuel: nat, i: int, s: Machine)
    requires
        x.ok(),
        x.before(i, s),
        i < x.m,
        s.vecs[0][0] == (x.entry)(i),
    ensures
        run(
            seq![sse(SseInst::MovssStore(Xmm(0), at(Reg::R14, Reg::R15, Scale::S4, 0)))],
            fpu,
            fuel,
            s,
        ) matches Some(u) && {
            &&& x.before(i + 1, u.set(Reg::R15, u.regs[Reg::R15] + 1))
            &&& u.regs == s.regs
            &&& u.vecs == s.vecs
        },
{
    let m = at(Reg::R14, Reg::R15, Scale::S4, 0);
    let code = seq![sse(SseInst::MovssStore(Xmm(0), m))];
    let u = step(Inst::Sse(SseInst::MovssStore(Xmm(0), m)), fpu, s);
    lemma_movss_store(Xmm(0), m, fpu, s);
    lemma_run_op(code, fpu, fuel, s);
    lemma_run_none(code.drop_first(), fpu, fuel, u);
    assert(s.addr(m) == x.out + 4 * i);
    let v = s.vecs[0][0];
    lemma_word_back(s.mem, x.out + 4 * i, v);
    crate::bytes::lemma_le_bytes_len(v as nat, 4);
    assert forall|p: int| 0 <= p < i + 1 implies #[trigger] word_at(u.mem, x.out + 4 * p) == (
    x.entry)(p) by {
        if p < i {
            assert(word_at(s.mem, x.out + 4 * p) == (x.entry)(p));
            assert(bytes_at(u.mem, x.out + 4 * p, 4) =~= bytes_at(s.mem, x.out + 4 * p, 4));
        }
    }
    let w = u.set(Reg::R15, u.regs[Reg::R15] + 1);
    assert(in_range(w));
    assert forall|q: int| !(x.out <= q < x.out + 4 * x.m) implies #[trigger] (w.mem)(q) == (x.base)(
        q,
    ) by {
        assert((s.mem)(q) == (x.base)(q));
    }
}

/// The task that a caller sets.
pub open spec fn rows_of(
    s: Machine,
    t: Machine,
    w: Reg,
    w_len: int,
    a: Reg,
    a_len: int,
    out: Reg,
    m: i32,
    sp: int,
    entry: spec_fn(int) -> u32,
) -> Rows {
    Rows {
        m: m as int,
        w: s.regs[w],
        w_len,
        a: s.regs[a],
        a_len,
        out: s.regs[out],
        sp,
        bp: s.regs[Reg::RBP],
        vecs: s.vecs,
        mem: s.mem,
        base: t.mem,
        entry,
    }
}

/// The loop over rows, where its body takes one row to the next.
pub(crate) proof fn lemma_rows(
    x: Rows,
    m: i32,
    body: Seq<Code>,
    fpu: Fpu,
    fuel: nat,
    t: Machine,
    also: spec_fn(Machine) -> bool,
)
    requires
        x.ok(),
        x.m == m,
        x.steady(t),
        fuel > m + 1,
        also(t.set(Reg::R15, 0)),
        forall|i: int, u: Machine| #[trigger]
            x.before(i, u) && i < m && also(u) ==> (after_turn(
                Reg::R15,
                1,
                body,
                fpu,
                fuel,
                u,
            ) matches Some(w) && x.before(i + 1, w) && also(w)),
    ensures
        run(seq![counted(Reg::R15, m, 1, body)], fpu, fuel, t) matches Some(u) && x.before(
            m as int,
            u,
        ) && also(u),
{
    let code = seq![counted(Reg::R15, m, 1, body)];
    let inv = |i: int, u: Machine| x.before(i, u) && also(u);
    assert forall|i: int, u: Machine| #[trigger]
        inv(i, u) && 0 <= i < m && i % 1 == 0 implies (after_turn(
        Reg::R15,
        1,
        body,
        fpu,
        fuel,
        u,
    ) matches Some(w) && inv(i + 1, w)) by {
        assert(x.before(i, u));
    }
    let s0 = t.set(Reg::R15, 0);
    assert(in_range(s0));
    assert(x.before(0, s0));
    assert(inv(0, s0));
    lemma_loop(Reg::R15, m, 1, body, fpu, fuel, t, inv);
    lemma_last_count(x.m, 1);
    lemma_run_single(code[0], fpu, fuel, t);
    assert(inv(x.m, run_one(code[0], fpu, fuel, t)->0));
}

/// What a kernel with one entry per row leaves.
pub open spec fn gives_rows(
    s: Machine,
    t: Machine,
    out: Reg,
    m: i32,
    entry: spec_fn(int) -> u32,
) -> bool {
    &&& left(s, t, s.regs[out], s.regs[out] + 4 * m)
    &&& words(t.mem, s.regs[out], m as nat) == Seq::new(m as nat, entry)
}

/// On entry to the loops the operands are in place.
pub(crate) proof fn lemma_rows_entered(
    s: Machine,
    t: Machine,
    w: Reg,
    w_len: int,
    a: Reg,
    a_len: int,
    out: Reg,
    m: i32,
    abi: Abi,
    entry: spec_fn(int) -> u32,
)
    requires
        0 <= m,
        0 <= w_len,
        0 <= a_len,
        called(s, w, w_len, a, a_len, out, 4 * m, abi),
        entered(s, t, frame_extra(abi) as int, w, a, out),
    ensures
        rows_of(s, t, w, w_len, a, a_len, out, m, t.regs[Reg::RSP], entry).ok(),
        rows_of(s, t, w, w_len, a, a_len, out, m, t.regs[Reg::RSP], entry).steady(t),
        rows_of(s, t, w, w_len, a, a_len, out, m, t.regs[Reg::RSP], entry).high(t),
{
    assert(0 <= s.regs[w] && 0 <= s.regs[a] && 0 <= s.regs[out]);
}

/// From the loops to the end of a kernel that has filled its output.
pub(crate) proof fn lemma_rows_end(
    fpu: Fpu,
    fuel: nat,
    s: Machine,
    t: Machine,
    u: Machine,
    w: Reg,
    w_len: int,
    a: Reg,
    a_len: int,
    out: Reg,
    m: i32,
    abi: Abi,
    entry: spec_fn(int) -> u32,
)
    requires
        0 <= m,
        0 <= w_len,
        0 <= a_len,
        called(s, w, w_len, a, a_len, out, 4 * m, abi),
        entered(s, t, frame_extra(abi) as int, w, a, out),
        rows_of(s, t, w, w_len, a, a_len, out, m, t.regs[Reg::RSP], entry).before(m as int, u),
        rows_of(s, t, w, w_len, a, a_len, out, m, t.regs[Reg::RSP], entry).high(u),
    ensures
        run(epilogue_code(frame_extra(abi)), fpu, fuel, u) matches Some(v) && gives_rows(
            s,
            v,
            out,
            m,
            entry,
        ),
{
    let extra = frame_extra(abi);
    let x = rows_of(s, t, w, w_len, a, a_len, out, m, t.regs[Reg::RSP], entry);
    lemma_leave(extra, fpu, fuel, s, t, u, w, a, out, s.regs[out], s.regs[out] + 4 * m);
    let v = run(epilogue_code(extra), fpu, fuel, u)->0;
    assert(words(v.mem, s.regs[out], m as nat) =~= Seq::new(m as nat, entry));
}

} // verus!
