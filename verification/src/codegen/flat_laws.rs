//! Structured code and its bytes do the same: a processor that runs the bytes,
//! jump by jump, goes through what the structured code says.

use crate::bytes::lemma_le_bytes_len;
use crate::codegen::assembler::{
    assemble, code_bytes, inst_bytes, loop_bytes, step_bytes, Code, Inst,
};
use crate::codegen::machine::{run, run_one, signed64, step, turn, Fpu, Machine};
use crate::codegen::x86_64_enc::{
    enc_cmp_ri32, enc_jcc_rel32, enc_jmp_rel32, enc_xor_rr, Cond, Reg,
};
use vstd::prelude::*;

verus! {

/// Where the processor is in the bytes, its state, and whether the last
/// comparison found the first operand to be less.
pub struct Config {
    pub pc: int,
    pub state: Machine,
    pub less: bool,
}

/// What the processor does at a place. An instruction of straight-line code,
/// and what loops are made of.
pub enum Event {
    Op(Inst),
    Clear(Reg),
    Compare(Reg, i32),
    /// Jumps that many bytes from its end, unless the comparison found less.
    Leave(int),
    /// Jumps that many bytes from its end.
    Jump(int),
    Advance(Reg, i32),
}

/// The bytes that make the processor do it.
pub open spec fn event_bytes(e: Event) -> Seq<u8> {
    match e {
        Event::Op(i) => inst_bytes(i),
        Event::Clear(r) => enc_xor_rr(r),
        Event::Compare(r, v) => enc_cmp_ri32(r, v),
        Event::Leave(delta) => enc_jcc_rel32(Cond::GreaterOrEqual, delta),
        Event::Jump(delta) => enc_jmp_rel32(delta),
        Event::Advance(r, v) => step_bytes(r, v),
    }
}

/// A jump goes no farther than 32 bits can say.
pub open spec fn in_reach(delta: int) -> bool {
    -0x8000_0000 <= delta < 0x8000_0000
}

/// What comes of it. What straight-line code does to the flags is left open.
pub open spec fn follows(e: Event, fpu: Fpu, c: Config, d: Config) -> bool {
    let next = c.pc + event_bytes(e).len();
    match e {
        Event::Op(i) => d.pc == next && d.state == step(i, fpu, c.state),
        Event::Clear(r) => d.pc == next && d.state == c.state.set(r, 0),
        Event::Compare(r, v) => {
            &&& d.pc == next
            &&& d.state == c.state
            &&& d.less == (signed64(c.state.regs[r]) < v)
        },
        Event::Leave(delta) => {
            &&& in_reach(delta)
            &&& d.state == c.state
            &&& d.pc == if c.less {
                next
            } else {
                next + delta
            }
        },
        Event::Jump(delta) => in_reach(delta) && d.state == c.state && d.pc == next + delta,
        Event::Advance(r, v) => d.pc == next && d.state == c.state.set(r, c.state.regs[r] + v),
    }
}

/// Some bytes stand at a place.
pub open spec fn stands_at(bytes: Seq<u8>, pc: int, part: Seq<u8>) -> bool {
    &&& 0 <= pc
    &&& pc + part.len() <= bytes.len()
    &&& bytes.subrange(pc, pc + part.len()) == part
}

/// The processor gets from `c` to `d` in `n` steps.
pub open spec fn reaches(bytes: Seq<u8>, fpu: Fpu, c: Config, d: Config, n: nat) -> bool
    decreases n,
{
    if n == 0 {
        c == d
    } else {
        exists|e: Event, m: Config| #[trigger]
            follows(e, fpu, c, m) && stands_at(bytes, c.pc, event_bytes(e)) && reaches(
                bytes,
                fpu,
                m,
                d,
                (n - 1) as nat,
            )
    }
}

/// The processor gets from one place and state to another, whatever the flags
/// are at first.
pub open spec fn leads(
    bytes: Seq<u8>,
    fpu: Fpu,
    pc: int,
    s: Machine,
    end: int,
    t: Machine,
) -> bool {
    forall|less: bool| #[trigger] arrives(bytes, fpu, Config { pc, state: s, less }, end, t)
}

/// The processor gets from a configuration to a place and a state.
pub open spec fn arrives(bytes: Seq<u8>, fpu: Fpu, c: Config, end: int, t: Machine) -> bool {
    exists|less: bool, n: nat| #[trigger]
        reaches(bytes, fpu, c, Config { pc: end, state: t, less }, n)
}

// ---- paths ----------------------------------------------------------------------------

proof fn lemma_reaches_on(
    bytes: Seq<u8>,
    fpu: Fpu,
    c: Config,
    d: Config,
    e: Config,
    n: nat,
    m: nat,
)
    requires
        reaches(bytes, fpu, c, d, n),
        reaches(bytes, fpu, d, e, m),
    ensures
        reaches(bytes, fpu, c, e, n + m),
    decreases n,
{
    if n > 0 {
        let (v, x) = choose|v: Event, x: Config| #[trigger]
            follows(v, fpu, c, x) && stands_at(bytes, c.pc, event_bytes(v)) && reaches(
                bytes,
                fpu,
                x,
                d,
                (n - 1) as nat,
            );
        lemma_reaches_on(bytes, fpu, x, d, e, (n - 1) as nat, m);
        assert((n - 1) as nat + m == (n + m - 1) as nat);
        assert(follows(v, fpu, c, x));
    }
}

proof fn lemma_event(bytes: Seq<u8>, fpu: Fpu, c: Config, e: Event, d: Config)
    requires
        stands_at(bytes, c.pc, event_bytes(e)),
        follows(e, fpu, c, d),
    ensures
        reaches(bytes, fpu, c, d, 1),
{
    assert(reaches(bytes, fpu, d, d, 0));
}

proof fn lemma_leads_on(
    bytes: Seq<u8>,
    fpu: Fpu,
    a: int,
    s: Machine,
    b: int,
    t: Machine,
    c: int,
    u: Machine,
)
    requires
        leads(bytes, fpu, a, s, b, t),
        leads(bytes, fpu, b, t, c, u),
    ensures
        leads(bytes, fpu, a, s, c, u),
{
    assert forall|less: bool| #[trigger]
        arrives(bytes, fpu, Config { pc: a, state: s, less }, c, u) by {
        let x = Config { pc: a, state: s, less };
        assert(arrives(bytes, fpu, x, b, t));
        let (l1, n1) = choose|l: bool, n: nat| #[trigger]
            reaches(bytes, fpu, x, Config { pc: b, state: t, less: l }, n);
        let y = Config { pc: b, state: t, less: l1 };
        assert(arrives(bytes, fpu, y, c, u));
        let (l2, n2) = choose|l: bool, n: nat| #[trigger]
            reaches(bytes, fpu, y, Config { pc: c, state: u, less: l }, n);
        lemma_reaches_on(bytes, fpu, x, y, Config { pc: c, state: u, less: l2 }, n1, n2);
    }
}

/// A step that does not depend on the flags.
proof fn lemma_simple(bytes: Seq<u8>, fpu: Fpu, pc: int, s: Machine, e: Event, t: Machine)
    requires
        stands_at(bytes, pc, event_bytes(e)),
        match e {
            Event::Op(i) => t == step(i, fpu, s),
            Event::Clear(r) => t == s.set(r, 0),
            Event::Advance(r, v) => t == s.set(r, s.regs[r] + v),
            _ => false,
        },
    ensures
        leads(bytes, fpu, pc, s, pc + event_bytes(e).len(), t),
{
    assert forall|less: bool| #[trigger]
        arrives(bytes, fpu, Config { pc, state: s, less }, pc + event_bytes(e).len(), t) by {
        let c = Config { pc, state: s, less };
        let d = Config { pc: pc + event_bytes(e).len(), state: t, less };
        lemma_event(bytes, fpu, c, e, d);
    }
}

proof fn lemma_jump(bytes: Seq<u8>, fpu: Fpu, pc: int, s: Machine, delta: int)
    requires
        stands_at(bytes, pc, enc_jmp_rel32(delta)),
        in_reach(delta),
    ensures
        leads(bytes, fpu, pc, s, pc + enc_jmp_rel32(delta).len() + delta, s),
{
    let end = pc + enc_jmp_rel32(delta).len() + delta;
    assert forall|less: bool| #[trigger]
        arrives(bytes, fpu, Config { pc, state: s, less }, end, s) by {
        let c = Config { pc, state: s, less };
        let d = Config { pc: end, state: s, less };
        lemma_event(bytes, fpu, c, Event::Jump(delta), d);
    }
}

/// The test at the head of a loop.
proof fn lemma_test(bytes: Seq<u8>, fpu: Fpu, pc: int, s: Machine, r: Reg, v: i32, delta: int)
    requires
        stands_at(bytes, pc, enc_cmp_ri32(r, v)),
        stands_at(
            bytes,
            pc + enc_cmp_ri32(r, v).len(),
            enc_jcc_rel32(Cond::GreaterOrEqual, delta),
        ),
        in_reach(delta),
    ensures
        ({
            let next = pc + enc_cmp_ri32(r, v).len() + enc_jcc_rel32(
                Cond::GreaterOrEqual,
                delta,
            ).len();
            leads(
                bytes,
                fpu,
                pc,
                s,
                if signed64(s.regs[r]) < v {
                    next
                } else {
                    next + delta
                },
                s,
            )
        }),
{
    let mid = pc + enc_cmp_ri32(r, v).len();
    let next = mid + enc_jcc_rel32(Cond::GreaterOrEqual, delta).len();
    let found = signed64(s.regs[r]) < v;
    let end = if found {
        next
    } else {
        next + delta
    };
    assert forall|less: bool| #[trigger]
        arrives(bytes, fpu, Config { pc, state: s, less }, end, s) by {
        let c = Config { pc, state: s, less };
        let x = Config { pc: mid, state: s, less: found };
        let d = Config { pc: end, state: s, less: found };
        lemma_event(bytes, fpu, c, Event::Compare(r, v), x);
        lemma_event(bytes, fpu, x, Event::Leave(delta), d);
        lemma_reaches_on(bytes, fpu, c, x, d, 1, 1);
    }
}

/// The two parts of what stands at a place.
proof fn lemma_parts(bytes: Seq<u8>, pc: int, a: Seq<u8>, b: Seq<u8>)
    requires
        stands_at(bytes, pc, a + b),
    ensures
        stands_at(bytes, pc, a),
        stands_at(bytes, pc + a.len(), b),
{
    let whole = bytes.subrange(pc, pc + (a + b).len());
    assert(bytes.subrange(pc, pc + a.len()) =~= a) by {
        assert(whole.subrange(0, a.len() as int) =~= a);
    }
    assert(bytes.subrange(pc + a.len(), pc + a.len() + b.len()) =~= b) by {
        assert(whole.subrange(a.len() as int, whole.len() as int) =~= b);
    }
}

// ---- code -----------------------------------------------------------------------------

/// The bytes of structured code do what the code says: where the code ends, the
/// processor gets from the start of its bytes to their end, with the state that
/// the code comes to. The bytes must be fewer than `2^31`, so that every jump
/// is in reach.
pub proof fn lemma_bytes_run(
    bytes: Seq<u8>,
    pc: int,
    code: Seq<Code>,
    fpu: Fpu,
    fuel: nat,
    s: Machine,
)
    requires
        bytes.len() < 0x8000_0000,
        stands_at(bytes, pc, assemble(code)),
        run(code, fpu, fuel, s) is Some,
    ensures
        leads(bytes, fpu, pc, s, pc + assemble(code).len(), run(code, fpu, fuel, s)->0),
    decreases code, 0nat,
{
    reveal_with_fuel(run, 2);
    reveal_with_fuel(run_one, 2);
    reveal_with_fuel(turn, 2);
    if code.len() == 0 {
        assert(run(code, fpu, fuel, s) == Some(s));
        assert forall|less: bool| #[trigger]
            arrives(bytes, fpu, Config { pc, state: s, less }, pc, s) by {
            let c = Config { pc, state: s, less };
            assert(reaches(bytes, fpu, c, c, 0));
        }
    } else {
        let rest = code.drop_last();
        let c = code.last();
        let mid = run(rest, fpu, fuel, s)->0;
        assert(assemble(code) == assemble(rest) + code_bytes(c));
        lemma_parts(bytes, pc, assemble(rest), code_bytes(c));
        lemma_bytes_run(bytes, pc, rest, fpu, fuel, s);
        lemma_piece_runs(bytes, pc + assemble(rest).len(), c, fpu, fuel, mid);
        lemma_leads_on(
            bytes,
            fpu,
            pc,
            s,
            pc + assemble(rest).len(),
            mid,
            pc + assemble(code).len(),
            run(code, fpu, fuel, s)->0,
        );
    }
}

proof fn lemma_piece_runs(bytes: Seq<u8>, pc: int, c: Code, fpu: Fpu, fuel: nat, s: Machine)
    requires
        bytes.len() < 0x8000_0000,
        stands_at(bytes, pc, code_bytes(c)),
        run_one(c, fpu, fuel, s) is Some,
    ensures
        leads(bytes, fpu, pc, s, pc + code_bytes(c).len(), run_one(c, fpu, fuel, s)->0),
    decreases c, 0nat,
{
    reveal_with_fuel(run, 2);
    reveal_with_fuel(run_one, 2);
    reveal_with_fuel(turn, 2);
    match c {
        Code::Op(i) => {
            lemma_simple(bytes, fpu, pc, s, Event::Op(i), step(i, fpu, s));
        },
        Code::Loop { ctr, bound, step: by, body } => {
            let x = enc_xor_rr(ctr);
            let t = run_one(c, fpu, fuel, s)->0;
            lemma_loop_parts(bytes, pc, ctr, bound, by, assemble(body));
            lemma_simple(bytes, fpu, pc, s, Event::Clear(ctr), s.set(ctr, 0));
            lemma_turns_run(bytes, pc, ctr, bound, by, body, fpu, fuel, fuel, s.set(ctr, 0));
            lemma_leads_on(
                bytes,
                fpu,
                pc,
                s,
                pc + x.len(),
                s.set(ctr, 0),
                pc + code_bytes(c).len(),
                t,
            );
        },
    }
}

/// Where the parts of a loop stand.
proof fn lemma_loop_parts(bytes: Seq<u8>, pc: int, ctr: Reg, bound: i32, by: i32, body: Seq<u8>)
    requires
        stands_at(bytes, pc, loop_bytes(ctr, bound, by, body)),
    ensures
        ({
            let x = enc_xor_rr(ctr);
            let test = enc_cmp_ri32(ctr, bound);
            let adv = step_bytes(ctr, by);
            let work = body + adv;
            let go = enc_jcc_rel32(Cond::GreaterOrEqual, 5int + work.len());
            let back = enc_jmp_rel32(-(test.len() + 6 + 5int + work.len()));
            let head = pc + x.len();
            let start = head + test.len() + go.len();
            &&& stands_at(bytes, pc, x)
            &&& stands_at(bytes, head, test)
            &&& stands_at(bytes, head + test.len(), go)
            &&& stands_at(bytes, start, body)
            &&& stands_at(bytes, start + body.len(), adv)
            &&& stands_at(bytes, start + work.len(), back)
            &&& go.len() == 6
            &&& back.len() == 5
            &&& loop_bytes(ctr, bound, by, body).len() == x.len() + test.len() + 6 + work.len() + 5
        }),
{
    let x = enc_xor_rr(ctr);
    let test = enc_cmp_ri32(ctr, bound);
    let adv = step_bytes(ctr, by);
    let work = body + adv;
    let go = enc_jcc_rel32(Cond::GreaterOrEqual, 5int + work.len());
    let back = enc_jmp_rel32(-(test.len() + 6 + 5int + work.len()));
    lemma_le_bytes_len(crate::bytes::wrap32(5int + work.len()), 4);
    lemma_le_bytes_len(crate::bytes::wrap32(-(test.len() + 6 + 5int + work.len())), 4);
    lemma_parts(bytes, pc, x + test + go + work, back);
    lemma_parts(bytes, pc, x + test + go, work);
    lemma_parts(bytes, pc, x + test, go);
    lemma_parts(bytes, pc, x, test);
    lemma_parts(bytes, pc + (x + test + go).len(), body, adv);
}

proof fn lemma_turns_run(
    bytes: Seq<u8>,
    pc: int,
    ctr: Reg,
    bound: i32,
    by: i32,
    body: Seq<Code>,
    fpu: Fpu,
    fuel: nat,
    left: nat,
    s: Machine,
)
    requires
        bytes.len() < 0x8000_0000,
        stands_at(bytes, pc, loop_bytes(ctr, bound, by, assemble(body))),
        turn(ctr, bound, by, body, fpu, fuel, left, s) is Some,
    ensures
        leads(
            bytes,
            fpu,
            pc + enc_xor_rr(ctr).len(),
            s,
            pc + loop_bytes(ctr, bound, by, assemble(body)).len(),
            turn(ctr, bound, by, body, fpu, fuel, left, s)->0,
        ),
    decreases body, left + 1,
{
    reveal_with_fuel(run, 2);
    reveal_with_fuel(run_one, 2);
    reveal_with_fuel(turn, 2);
    let inner = assemble(body);
    let test = enc_cmp_ri32(ctr, bound);
    let adv = step_bytes(ctr, by);
    let work = inner + adv;
    let delta = 5int + work.len();
    let ret = -(test.len() + 6 + 5int + work.len());
    let head = pc + enc_xor_rr(ctr).len();
    let start = head + test.len() + 6;
    let end = pc + loop_bytes(ctr, bound, by, inner).len();
    lemma_loop_parts(bytes, pc, ctr, bound, by, inner);
    lemma_test(bytes, fpu, head, s, ctr, bound, delta);
    assert(start + delta == end);
    if signed64(s.regs[ctr]) < bound {
        let t = run(body, fpu, fuel, s)->0;
        let u = t.set(ctr, t.regs[ctr] + by);
        let last = turn(ctr, bound, by, body, fpu, fuel, left, s)->0;
        lemma_bytes_run(bytes, start, body, fpu, fuel, s);
        lemma_simple(bytes, fpu, start + inner.len(), t, Event::Advance(ctr, by), u);
        lemma_jump(bytes, fpu, start + work.len(), u, ret);
        assert(start + work.len() + 5 + ret == head);
        lemma_turns_run(bytes, pc, ctr, bound, by, body, fpu, fuel, prev(left), u);
        lemma_leads_on(bytes, fpu, head, s, start, s, start + inner.len(), t);
        lemma_leads_on(bytes, fpu, head, s, start + inner.len(), t, start + work.len(), u);
        lemma_leads_on(bytes, fpu, head, s, start + work.len(), u, head, u);
        lemma_leads_on(bytes, fpu, head, s, head, u, end, last);
    }
}

/// One less.
spec fn prev(n: nat) -> nat {
    (n - 1) as nat
}

} // verus!
