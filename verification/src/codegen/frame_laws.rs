//! What the code around a kernel's loops does: it saves and restores the
//! callee-saved registers, and moves the pointers into place.

use crate::bytes::{
    le_bytes, le_value, lemma_le_bytes_len, lemma_le_value_of_le_bytes, lemma_pow256_values,
};
use crate::codegen::assembler::{Code, Inst, IntInst};
use crate::codegen::kernels::{bind_code, epilogue_code, gp, index_code, prologue_code};
use crate::codegen::machine::{
    bytes_at, lemma_add_ri, lemma_add_rr, lemma_imul, lemma_mov_rr, lemma_read_back, lemma_ret,
    lemma_run_concat, lemma_run_none, lemma_run_op, lemma_sub_ri,
    run, step, word_count, written, Fpu, Machine,
};
use crate::codegen::x86_64_enc::Reg;
use vstd::prelude::*;

verus! {

/// The 64-bit number at an address.
pub open spec fn quad_at(mem: spec_fn(int) -> u8, at: int) -> int {
    le_value(bytes_at(mem, at, 8)) as int
}

/// Every register holds a 64-bit number, and every vector register 16 lanes.
pub open spec fn in_range(s: Machine) -> bool {
    &&& forall|r: Reg| 0 <= #[trigger] s.regs[r] < word_count()
    &&& forall|v: u8| (#[trigger] s.vecs[v]).len() == 16
}

/// The vector registers from 6 on are the same.
pub open spec fn same_high(a: Machine, b: Machine) -> bool {
    forall|v: u8| v >= 6 ==> #[trigger] b.vecs[v] == a.vecs[v]
}

/// Memory is the same outside of `[from, to)`.
pub open spec fn same_outside(
    a: spec_fn(int) -> u8,
    b: spec_fn(int) -> u8,
    from: int,
    to: int,
) -> bool {
    forall|k: int| !(from <= k < to) ==> #[trigger] b(k) == a(k)
}

/// The slots below `sp` hold the callee-saved registers of `s`.
pub open spec fn saved(s: Machine, mem: spec_fn(int) -> u8, sp: int) -> bool {
    &&& quad_at(mem, sp - 8) == s.regs[Reg::R12]
    &&& quad_at(mem, sp - 16) == s.regs[Reg::R13]
    &&& quad_at(mem, sp - 24) == s.regs[Reg::R14]
    &&& quad_at(mem, sp - 32) == s.regs[Reg::R15]
    &&& quad_at(mem, sp - 40) == s.regs[Reg::RBX]
}

proof fn lemma_quad_back(mem: spec_fn(int) -> u8, at: int, v: int)
    requires
        0 <= v < word_count(),
    ensures
        quad_at(written(mem, at, le_bytes(v as nat, 8)), at) == v,
        le_bytes(v as nat, 8).len() == 8,
{
    lemma_le_bytes_len(v as nat, 8);
    lemma_pow256_values();
    lemma_le_value_of_le_bytes(v as nat, 8);
    lemma_read_back(mem, at, le_bytes(v as nat, 8));
}

/// A number elsewhere stays.
pub(crate) proof fn lemma_quad_same(
    a: spec_fn(int) -> u8,
    b: spec_fn(int) -> u8,
    from: int,
    to: int,
    at: int,
)
    requires
        same_outside(a, b, from, to),
        at + 8 <= from || to <= at,
    ensures
        quad_at(b, at) == quad_at(a, at),
{
    assert(bytes_at(b, at, 8) =~= bytes_at(a, at, 8));
}

/// `push` writes below the stack pointer and moves it there.
proof fn lemma_push(r: Reg, fpu: Fpu, s: Machine, t: Machine)
    requires
        in_range(s),
        s.regs[Reg::RSP] >= 8,
        t == step(Inst::Int(IntInst::Push(r)), fpu, s),
    ensures
        in_range(t),
        t.regs == s.regs.insert(Reg::RSP, s.regs[Reg::RSP] - 8),
        t.vecs == s.vecs,
        t.returned == s.returned,
        quad_at(t.mem, s.regs[Reg::RSP] - 8) == s.regs[r],
        same_outside(s.mem, t.mem, s.regs[Reg::RSP] - 8, s.regs[Reg::RSP]),
{
    let sp = s.regs[Reg::RSP] - 8;
    crate::codegen::machine::lemma_push(r, fpu, s);
    lemma_quad_back(s.mem, sp, s.regs[r]);
    assert forall|k: int| !(sp <= k < sp + 8) implies #[trigger] (t.mem)(k) == (s.mem)(k) by {
        assert(le_bytes(s.regs[r] as nat, 8).len() == 8);
    }
    assert forall|q: Reg| 0 <= #[trigger] t.regs[q] < word_count() by {
        assert(0 <= s.regs[q] < word_count());
    }
}

/// The state in which a kernel's loops start.
pub open spec fn entered(s: Machine, t: Machine, size: int, p0: Reg, p1: Reg, p2: Reg) -> bool {
    let sp = s.regs[Reg::RSP];
    &&& in_range(t)
    &&& t.regs[Reg::R12] == s.regs[p0]
    &&& t.regs[Reg::R13] == s.regs[p1]
    &&& t.regs[Reg::R14] == s.regs[p2]
    &&& t.regs[Reg::RSP] == sp - 40 - size
    &&& t.returned == s.returned
    &&& t.vecs == s.vecs
    &&& saved(s, t.mem, sp)
    &&& same_outside(s.mem, t.mem, sp - 40, sp)
    &&& t.regs[Reg::RBP] == s.regs[Reg::RBP]
}

/// A register that holds a pointer on entry, and that the prologue leaves
/// alone.
pub open spec fn is_pointer(r: Reg) -> bool {
    r != Reg::R12 && r != Reg::R13 && r != Reg::R14 && r != Reg::RSP
}

/// The prologue saves the callee-saved registers that the kernels use.
pub(crate) proof fn lemma_prologue(size: i32, fpu: Fpu, fuel: nat, s: Machine)
    requires
        in_range(s),
        0 <= size,
        s.regs[Reg::RSP] >= 40 + size,
    ensures
        run(prologue_code(size), fpu, fuel, s) matches Some(t) && {
            let sp = s.regs[Reg::RSP];
            &&& in_range(t)
            &&& t.regs == s.regs.insert(Reg::RSP, sp - 40 - size)
            &&& t.vecs == s.vecs
            &&& t.returned == s.returned
            &&& saved(s, t.mem, sp)
            &&& same_outside(s.mem, t.mem, sp - 40, sp)
        },
{
    let sp = s.regs[Reg::RSP];
    let c0 = prologue_code(size);
    let c1 = c0.drop_first();
    let c2 = c1.drop_first();
    let c3 = c2.drop_first();
    let c4 = c3.drop_first();
    let c5 = c4.drop_first();
    let s1 = step(Inst::Int(IntInst::Push(Reg::R12)), fpu, s);
    let s2 = step(Inst::Int(IntInst::Push(Reg::R13)), fpu, s1);
    let s3 = step(Inst::Int(IntInst::Push(Reg::R14)), fpu, s2);
    let s4 = step(Inst::Int(IntInst::Push(Reg::R15)), fpu, s3);
    let s5 = step(Inst::Int(IntInst::Push(Reg::RBX)), fpu, s4);
    let s6 = step(Inst::Int(IntInst::SubRI(Reg::RSP, size)), fpu, s5);
    lemma_run_op(c0, fpu, fuel, s);
    lemma_run_op(c1, fpu, fuel, s1);
    lemma_run_op(c2, fpu, fuel, s2);
    lemma_run_op(c3, fpu, fuel, s3);
    lemma_run_op(c4, fpu, fuel, s4);
    lemma_run_op(c5, fpu, fuel, s5);
    lemma_run_none(c5.drop_first(), fpu, fuel, s6);
    lemma_push(Reg::R12, fpu, s, s1);
    lemma_push(Reg::R13, fpu, s1, s2);
    lemma_push(Reg::R14, fpu, s2, s3);
    lemma_push(Reg::R15, fpu, s3, s4);
    lemma_push(Reg::RBX, fpu, s4, s5);
    lemma_sub_ri(Reg::RSP, size, fpu, s5);
    assert(s5.regs[Reg::RSP] == sp - 40);
    assert(s6.regs =~= s.regs.insert(Reg::RSP, sp - 40 - size));
    lemma_quad_same(s1.mem, s2.mem, sp - 16, sp - 8, sp - 8);
    lemma_quad_same(s2.mem, s3.mem, sp - 24, sp - 16, sp - 8);
    lemma_quad_same(s2.mem, s3.mem, sp - 24, sp - 16, sp - 16);
    lemma_quad_same(s3.mem, s4.mem, sp - 32, sp - 24, sp - 8);
    lemma_quad_same(s3.mem, s4.mem, sp - 32, sp - 24, sp - 16);
    lemma_quad_same(s3.mem, s4.mem, sp - 32, sp - 24, sp - 24);
    lemma_quad_same(s4.mem, s5.mem, sp - 40, sp - 32, sp - 8);
    lemma_quad_same(s4.mem, s5.mem, sp - 40, sp - 32, sp - 16);
    lemma_quad_same(s4.mem, s5.mem, sp - 40, sp - 32, sp - 24);
    lemma_quad_same(s4.mem, s5.mem, sp - 40, sp - 32, sp - 32);
    assert forall|k: int| !(sp - 40 <= k < sp) implies #[trigger] (s6.mem)(k) == (s.mem)(k) by {
        assert((s1.mem)(k) == (s.mem)(k));
        assert((s2.mem)(k) == (s1.mem)(k));
        assert((s3.mem)(k) == (s2.mem)(k));
        assert((s4.mem)(k) == (s3.mem)(k));
        assert((s5.mem)(k) == (s4.mem)(k));
    }
    assert forall|q: Reg| 0 <= #[trigger] s6.regs[q] < word_count() by {
        assert(0 <= s.regs[q] < word_count());
    }
}

/// The pointers are put into place.
pub(crate) proof fn lemma_bind(p0: Reg, p1: Reg, p2: Reg, fpu: Fpu, fuel: nat, s: Machine)
    requires
        in_range(s),
        is_pointer(p0),
        is_pointer(p1),
        is_pointer(p2),
    ensures
        run(bind_code(p0, p1, p2), fpu, fuel, s) matches Some(t) && {
            &&& in_range(t)
            &&& t.regs == s.regs.insert(Reg::R12, s.regs[p0]).insert(
                Reg::R13,
                s.regs[p1],
            ).insert(Reg::R14, s.regs[p2])
            &&& t.vecs == s.vecs
            &&& t.mem == s.mem
            &&& t.returned == s.returned
        },
{
    let c0 = bind_code(p0, p1, p2);
    let c1 = c0.drop_first();
    let c2 = c1.drop_first();
    let c3 = c2.drop_first();
    let s1 = step(Inst::Int(IntInst::MovRR(Reg::R12, p0)), fpu, s);
    lemma_mov_rr(Reg::R12, p0, fpu, s);
    lemma_run_op(c0, fpu, fuel, s);
    let s2 = step(Inst::Int(IntInst::MovRR(Reg::R13, p1)), fpu, s1);
    lemma_mov_rr(Reg::R13, p1, fpu, s1);
    lemma_run_op(c1, fpu, fuel, s1);
    let s3 = step(Inst::Int(IntInst::MovRR(Reg::R14, p2)), fpu, s2);
    lemma_mov_rr(Reg::R14, p2, fpu, s2);
    lemma_run_op(c2, fpu, fuel, s2);
    lemma_run_none(c3, fpu, fuel, s3);
    assert(0 <= s.regs[p0] < word_count() && 0 <= s.regs[p1] < word_count() && 0 <= s.regs[p2]
        < word_count());
    assert(s3.regs =~= s.regs.insert(Reg::R12, s.regs[p0]).insert(Reg::R13, s.regs[p1]).insert(
        Reg::R14,
        s.regs[p2],
    ));
}

/// The prologue saves what it must, and the pointers are put into place.
pub(crate) proof fn lemma_enter(
    size: i32,
    p0: Reg,
    p1: Reg,
    p2: Reg,
    fpu: Fpu,
    fuel: nat,
    s: Machine,
)
    requires
        in_range(s),
        0 <= size,
        s.regs[Reg::RSP] >= 40 + size,
        is_pointer(p0),
        is_pointer(p1),
        is_pointer(p2),
    ensures
        run(prologue_code(size) + bind_code(p0, p1, p2), fpu, fuel, s) matches Some(t) && entered(
            s,
            t,
            size as int,
            p0,
            p1,
            p2,
        ),
{
    lemma_prologue(size, fpu, fuel, s);
    lemma_run_concat(prologue_code(size), bind_code(p0, p1, p2), fpu, fuel, s);
    let s0 = run(prologue_code(size), fpu, fuel, s)->0;
    lemma_bind(p0, p1, p2, fpu, fuel, s0);
}

/// `pop` reads what the stack pointer points to and moves it up.
proof fn lemma_pop(r: Reg, fpu: Fpu, s: Machine, t: Machine)
    requires
        r != Reg::RSP,
        0 <= quad_at(s.mem, s.regs[Reg::RSP]) < word_count(),
        0 <= s.regs[Reg::RSP] < word_count() - 8,
        t == step(Inst::Int(IntInst::Pop(r)), fpu, s),
    ensures
        t.regs == s.regs.insert(Reg::RSP, s.regs[Reg::RSP] + 8).insert(
            r,
            quad_at(s.mem, s.regs[Reg::RSP]),
        ),
        t.mem == s.mem,
        t.vecs == s.vecs,
        t.returned == s.returned,
{
    crate::codegen::machine::lemma_pop(r, fpu, s);
}

/// The state after a kernel: the callee-saved general-purpose registers are
/// what they were, the return address was taken, and all memory outside of
/// `[from, to)` and of the `depth` bytes of stack below is what it was.
pub open spec fn restored(s: Machine, t: Machine, depth: int, from: int, to: int) -> bool {
    let sp = s.regs[Reg::RSP];
    &&& t.returned == Some(quad_at(s.mem, sp))
    &&& t.regs[Reg::RSP] == sp + 8
    &&& t.regs[Reg::RBX] == s.regs[Reg::RBX]
    &&& t.regs[Reg::RBP] == s.regs[Reg::RBP]
    &&& t.regs[Reg::R12] == s.regs[Reg::R12]
    &&& t.regs[Reg::R13] == s.regs[Reg::R13]
    &&& t.regs[Reg::R14] == s.regs[Reg::R14]
    &&& t.regs[Reg::R15] == s.regs[Reg::R15]
    &&& forall|k: int|
        !(from <= k < to) && !(sp - depth <= k < sp) ==> #[trigger] (t.mem)(k) == (s.mem)(k)
}

/// The state after a kernel that uses 40 bytes of stack and no vector register
/// from 6 on: those are callee-saved on Windows.
pub open spec fn left(s: Machine, t: Machine, from: int, to: int) -> bool {
    &&& restored(s, t, 40, from, to)
    &&& same_high(s, t)
}

/// The stack and the buffer `[from, to)` do not meet.
pub open spec fn apart(sp: int, from: int, to: int) -> bool {
    to <= sp - 40 || sp + 8 <= from
}

/// The epilogue restores the registers that the stack holds.
pub(crate) proof fn lemma_epilogue(size: i32, fpu: Fpu, fuel: nat, s: Machine, u: Machine)
    requires
        in_range(s),
        0 <= size,
        40 + size <= s.regs[Reg::RSP] < word_count() - 8,
        u.regs[Reg::RSP] == s.regs[Reg::RSP] - 40 - size,
        u.regs[Reg::RBP] == s.regs[Reg::RBP],
        saved(s, u.mem, s.regs[Reg::RSP]),
        quad_at(u.mem, s.regs[Reg::RSP]) == quad_at(s.mem, s.regs[Reg::RSP]),
    ensures
        run(epilogue_code(size), fpu, fuel, u) matches Some(v) && {
            &&& v.returned == Some(quad_at(s.mem, s.regs[Reg::RSP]))
            &&& v.regs[Reg::RSP] == s.regs[Reg::RSP] + 8
            &&& v.regs[Reg::RBX] == s.regs[Reg::RBX]
            &&& v.regs[Reg::RBP] == s.regs[Reg::RBP]
            &&& v.regs[Reg::R12] == s.regs[Reg::R12]
            &&& v.regs[Reg::R13] == s.regs[Reg::R13]
            &&& v.regs[Reg::R14] == s.regs[Reg::R14]
            &&& v.regs[Reg::R15] == s.regs[Reg::R15]
            &&& v.vecs == u.vecs
            &&& v.mem == u.mem
        },
{
    let sp = s.regs[Reg::RSP];
    let c0 = epilogue_code(size);
    let c1 = c0.drop_first();
    let c2 = c1.drop_first();
    let c3 = c2.drop_first();
    let c4 = c3.drop_first();
    let c5 = c4.drop_first();
    let c6 = c5.drop_first();
    let c7 = c6.drop_first();
    let u1 = step(Inst::Int(IntInst::AddRI(Reg::RSP, size)), fpu, u);
    lemma_add_ri(Reg::RSP, size, fpu, u);
    assert(u1.regs[Reg::RSP] == sp - 40);
    assert(0 <= s.regs[Reg::R12] < word_count() && 0 <= s.regs[Reg::R13] < word_count() && 0
        <= s.regs[Reg::R14] < word_count() && 0 <= s.regs[Reg::R15] < word_count() && 0
        <= s.regs[Reg::RBX] < word_count());
    lemma_run_op(c0, fpu, fuel, u);
    let u2 = step(Inst::Int(IntInst::Pop(Reg::RBX)), fpu, u1);
    lemma_pop(Reg::RBX, fpu, u1, u2);
    lemma_run_op(c1, fpu, fuel, u1);
    let u3 = step(Inst::Int(IntInst::Pop(Reg::R15)), fpu, u2);
    lemma_pop(Reg::R15, fpu, u2, u3);
    lemma_run_op(c2, fpu, fuel, u2);
    let u4 = step(Inst::Int(IntInst::Pop(Reg::R14)), fpu, u3);
    lemma_pop(Reg::R14, fpu, u3, u4);
    lemma_run_op(c3, fpu, fuel, u3);
    let u5 = step(Inst::Int(IntInst::Pop(Reg::R13)), fpu, u4);
    lemma_pop(Reg::R13, fpu, u4, u5);
    lemma_run_op(c4, fpu, fuel, u4);
    let u6 = step(Inst::Int(IntInst::Pop(Reg::R12)), fpu, u5);
    lemma_pop(Reg::R12, fpu, u5, u6);
    lemma_run_op(c5, fpu, fuel, u5);
    let u7 = step(Inst::Int(IntInst::Ret), fpu, u6);
    lemma_ret(fpu, u6);
    lemma_run_op(c6, fpu, fuel, u6);
    lemma_run_none(c7, fpu, fuel, u7);
    assert(u7.mem == u.mem);
}

/// The epilogue undoes the prologue, where the code in between kept the stack
/// and wrote to `[from, to)` only.
pub(crate) proof fn lemma_leave(
    size: i32,
    fpu: Fpu,
    fuel: nat,
    s: Machine,
    t: Machine,
    u: Machine,
    p0: Reg,
    p1: Reg,
    p2: Reg,
    from: int,
    to: int,
)
    requires
        in_range(s),
        0 <= size,
        40 + size <= s.regs[Reg::RSP] < word_count() - 8,
        entered(s, t, size as int, p0, p1, p2),
        u.regs[Reg::RSP] == t.regs[Reg::RSP],
        u.regs[Reg::RBP] == t.regs[Reg::RBP],
        same_high(t, u),
        same_outside(t.mem, u.mem, from, to),
        apart(s.regs[Reg::RSP], from, to),
    ensures
        run(epilogue_code(size), fpu, fuel, u) matches Some(v) && left(s, v, from, to) && v.mem
            == u.mem,
{
    let sp = s.regs[Reg::RSP];
    lemma_quad_same(t.mem, u.mem, from, to, sp - 8);
    lemma_quad_same(t.mem, u.mem, from, to, sp - 16);
    lemma_quad_same(t.mem, u.mem, from, to, sp - 24);
    lemma_quad_same(t.mem, u.mem, from, to, sp - 32);
    lemma_quad_same(t.mem, u.mem, from, to, sp - 40);
    lemma_quad_same(t.mem, u.mem, from, to, sp);
    lemma_quad_same(s.mem, t.mem, sp - 40, sp, sp);
    lemma_epilogue(size, fpu, fuel, s, u);
    let v = run(epilogue_code(size), fpu, fuel, u)->0;
    assert forall|k: int|
        !(from <= k < to) && !(sp - 40 <= k < sp) implies #[trigger] (v.mem)(k) == (s.mem)(k) by {
        assert((u.mem)(k) == (t.mem)(k));
        assert((t.mem)(k) == (s.mem)(k));
    }
}

/// Saves three registers and reserves `size` bytes of stack.
pub open spec fn push_three(r0: Reg, r1: Reg, r2: Reg, size: i32) -> Seq<Code> {
    seq![
        gp(IntInst::Push(r0)),
        gp(IntInst::Push(r1)),
        gp(IntInst::Push(r2)),
        gp(IntInst::SubRI(Reg::RSP, size)),
    ]
}

/// Undoes [`push_three`] and returns.
pub open spec fn pop_three(r0: Reg, r1: Reg, r2: Reg, size: i32) -> Seq<Code> {
    seq![
        gp(IntInst::AddRI(Reg::RSP, size)),
        gp(IntInst::Pop(r2)),
        gp(IntInst::Pop(r1)),
        gp(IntInst::Pop(r0)),
        gp(IntInst::Ret),
    ]
}

/// The slots below `sp` hold three registers of `s`.
pub open spec fn saved_three(
    s: Machine,
    mem: spec_fn(int) -> u8,
    sp: int,
    r0: Reg,
    r1: Reg,
    r2: Reg,
) -> bool {
    &&& quad_at(mem, sp - 8) == s.regs[r0]
    &&& quad_at(mem, sp - 16) == s.regs[r1]
    &&& quad_at(mem, sp - 24) == s.regs[r2]
}

/// Saving three registers.
pub(crate) proof fn lemma_push_three(
    r0: Reg,
    r1: Reg,
    r2: Reg,
    size: i32,
    fpu: Fpu,
    fuel: nat,
    s: Machine,
)
    requires
        in_range(s),
        0 <= size,
        s.regs[Reg::RSP] >= 24 + size,
        r0 != Reg::RSP,
        r1 != Reg::RSP,
        r2 != Reg::RSP,
    ensures
        run(push_three(r0, r1, r2, size), fpu, fuel, s) matches Some(t) && {
            let sp = s.regs[Reg::RSP];
            &&& in_range(t)
            &&& t.regs == s.regs.insert(Reg::RSP, sp - 24 - size)
            &&& t.vecs == s.vecs
            &&& t.returned == s.returned
            &&& saved_three(s, t.mem, sp, r0, r1, r2)
            &&& same_outside(s.mem, t.mem, sp - 24, sp)
        },
{
    let sp = s.regs[Reg::RSP];
    let c0 = push_three(r0, r1, r2, size);
    let c1 = c0.drop_first();
    let c2 = c1.drop_first();
    let c3 = c2.drop_first();
    let c4 = c3.drop_first();
    let s1 = step(Inst::Int(IntInst::Push(r0)), fpu, s);
    lemma_push(r0, fpu, s, s1);
    lemma_run_op(c0, fpu, fuel, s);
    let s2 = step(Inst::Int(IntInst::Push(r1)), fpu, s1);
    lemma_push(r1, fpu, s1, s2);
    lemma_run_op(c1, fpu, fuel, s1);
    let s3 = step(Inst::Int(IntInst::Push(r2)), fpu, s2);
    lemma_push(r2, fpu, s2, s3);
    lemma_run_op(c2, fpu, fuel, s2);
    let s4 = step(Inst::Int(IntInst::SubRI(Reg::RSP, size)), fpu, s3);
    lemma_sub_ri(Reg::RSP, size, fpu, s3);
    lemma_run_op(c3, fpu, fuel, s3);
    lemma_run_none(c4, fpu, fuel, s4);
    assert(s3.regs[Reg::RSP] == sp - 24);
    assert(s4.regs =~= s.regs.insert(Reg::RSP, sp - 24 - size));
    lemma_quad_same(s1.mem, s2.mem, sp - 16, sp - 8, sp - 8);
    lemma_quad_same(s2.mem, s3.mem, sp - 24, sp - 16, sp - 8);
    lemma_quad_same(s2.mem, s3.mem, sp - 24, sp - 16, sp - 16);
    assert forall|k: int| !(sp - 24 <= k < sp) implies #[trigger] (s4.mem)(k) == (s.mem)(k) by {
        assert((s1.mem)(k) == (s.mem)(k));
        assert((s2.mem)(k) == (s1.mem)(k));
        assert((s3.mem)(k) == (s2.mem)(k));
    }
    assert forall|q: Reg| 0 <= #[trigger] s4.regs[q] < word_count() by {
        assert(0 <= s.regs[q] < word_count());
    }
}

/// Restoring three registers.
pub(crate) proof fn lemma_pop_three(
    r0: Reg,
    r1: Reg,
    r2: Reg,
    size: i32,
    fpu: Fpu,
    fuel: nat,
    s: Machine,
    u: Machine,
)
    requires
        in_range(s),
        0 <= size,
        24 + size <= s.regs[Reg::RSP] < word_count() - 8,
        r0 != Reg::RSP,
        r1 != Reg::RSP,
        r2 != Reg::RSP,
        r0 != r1,
        r0 != r2,
        r1 != r2,
        u.regs[Reg::RSP] == s.regs[Reg::RSP] - 24 - size,
        saved_three(s, u.mem, s.regs[Reg::RSP], r0, r1, r2),
        quad_at(u.mem, s.regs[Reg::RSP]) == quad_at(s.mem, s.regs[Reg::RSP]),
    ensures
        run(pop_three(r0, r1, r2, size), fpu, fuel, u) matches Some(v) && {
            &&& v.returned == Some(quad_at(s.mem, s.regs[Reg::RSP]))
            &&& v.regs == u.regs.insert(Reg::RSP, s.regs[Reg::RSP] + 8).insert(
                r0,
                s.regs[r0],
            ).insert(r1, s.regs[r1]).insert(r2, s.regs[r2])
            &&& v.vecs == u.vecs
            &&& v.mem == u.mem
        },
{
    let sp = s.regs[Reg::RSP];
    let c0 = pop_three(r0, r1, r2, size);
    let c1 = c0.drop_first();
    let c2 = c1.drop_first();
    let c3 = c2.drop_first();
    let c4 = c3.drop_first();
    let c5 = c4.drop_first();
    let u1 = step(Inst::Int(IntInst::AddRI(Reg::RSP, size)), fpu, u);
    lemma_add_ri(Reg::RSP, size, fpu, u);
    assert(u1.regs[Reg::RSP] == sp - 24);
    assert(0 <= s.regs[r0] < word_count() && 0 <= s.regs[r1] < word_count() && 0 <= s.regs[r2]
        < word_count());
    lemma_run_op(c0, fpu, fuel, u);
    let u2 = step(Inst::Int(IntInst::Pop(r2)), fpu, u1);
    lemma_pop(r2, fpu, u1, u2);
    lemma_run_op(c1, fpu, fuel, u1);
    let u3 = step(Inst::Int(IntInst::Pop(r1)), fpu, u2);
    lemma_pop(r1, fpu, u2, u3);
    lemma_run_op(c2, fpu, fuel, u2);
    let u4 = step(Inst::Int(IntInst::Pop(r0)), fpu, u3);
    lemma_pop(r0, fpu, u3, u4);
    lemma_run_op(c3, fpu, fuel, u3);
    let u5 = step(Inst::Int(IntInst::Ret), fpu, u4);
    lemma_ret(fpu, u4);
    lemma_run_op(c4, fpu, fuel, u4);
    lemma_run_none(c5, fpu, fuel, u5);
    assert(u5.mem == u.mem);
    assert(u5.regs =~= u.regs.insert(Reg::RSP, sp + 8).insert(r0, s.regs[r0]).insert(
        r1,
        s.regs[r1],
    ).insert(r2, s.regs[r2]));
}

/// `dst = row * stride + col`, where that is a 64-bit number.
pub(crate) proof fn lemma_index(
    dst: Reg,
    row: Reg,
    stride: i32,
    col: Reg,
    fpu: Fpu,
    fuel: nat,
    s: Machine,
    v: int,
)
    requires
        dst != col,
        in_range(s),
        stride >= 0,
        v == s.regs[row] * stride + s.regs[col],
        v < word_count(),
    ensures
        run(index_code(dst, row, stride, col), fpu, fuel, s) == Some(
            Machine { regs: s.regs.insert(dst, v), ..s },
        ),
{
    let c0 = index_code(dst, row, stride, col);
    let c1 = c0.drop_first();
    let c2 = c1.drop_first();
    let s1 = step(Inst::Int(IntInst::MovRR(dst, row)), fpu, s);
    let s2 = step(Inst::Int(IntInst::ImulRRI(dst, dst, stride)), fpu, s1);
    let s3 = step(Inst::Int(IntInst::AddRR(dst, col)), fpu, s2);
    lemma_run_op(c0, fpu, fuel, s);
    lemma_run_op(c1, fpu, fuel, s1);
    lemma_run_op(c2, fpu, fuel, s2);
    lemma_run_none(c2.drop_first(), fpu, fuel, s3);
    lemma_mov_rr(dst, row, fpu, s);
    lemma_imul(dst, dst, stride, fpu, s1);
    lemma_add_rr(dst, col, fpu, s2);
    let r = s.regs[row];
    let w = s.regs[col];
    assert(0 <= r < word_count() && 0 <= w < word_count());
    let p = r * stride;
    assert(0 <= p) by (nonlinear_arith)
        requires
            0 <= r,
            0 <= stride,
            p == r * stride,
    ;
    assert(s1.regs[dst] == r);
    assert(s2.regs[dst] == p);
    assert(s2.regs[col] == w);
    assert(s3.regs[dst] == v);
    assert(s3.regs =~= s.regs.insert(dst, v));
}

} // verus!
