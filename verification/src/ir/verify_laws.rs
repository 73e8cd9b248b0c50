//! What the verifier lets through, and what it reports.

use crate::ir::module::{Block, Function, ValueId};
use crate::ir::op::Op;
use crate::ir::ty::{Dim, TensorTypeView};
use crate::ir::verify::{
    block_order, ends_in_return, function_faults, lemma_operands_defined_before_use,
    lemma_verified_function, module_faults, operand_faults, operands_of, order_faults,
    return_faults, returned, type_faults, VerifyFault,
};
use vstd::prelude::*;

verus! {

/// Whether an operation reads a value.
pub open spec fn reads(op: Op, o: ValueId) -> bool {
    match op {
        Op::Param { index } => false,
        Op::LoadWeight { name } => false,
        Op::LoadInput { index } => false,
        Op::Constant { bits } => false,
        Op::MatMul { lhs, rhs } => o == lhs || o == rhs,
        Op::Add { lhs, rhs } => o == lhs || o == rhs,
        Op::Mul { lhs, rhs } => o == lhs || o == rhs,
        Op::Silu { x } => o == x,
        Op::Gelu { x } => o == x,
        Op::Softmax { x, axis } => o == x,
        Op::RmsNorm { x, weight, eps } => o == x || o == weight,
        Op::Rope { x, positions, base } => o == x || o == positions,
        Op::Reshape { x, new_shape } => o == x,
        Op::Transpose { x, perm } => o == x,
        Op::Dequantize { x } => o == x,
        Op::Quantize { x, target } => o == x,
        Op::Return { value } => o == value,
    }
}

/// The type of a value.
pub open spec fn type_of(f: Function, v: ValueId) -> TensorTypeView {
    f.values@[v.0 as int].ty@
}

/// The types of the operands of the operation go together: those of a matrix
/// product have two dimensions and the same elements, and static inner dimensions
/// agree; those of a sum or an element-wise product are the same.
pub open spec fn types_fit(f: Function, op: Op) -> bool {
    match op {
        Op::MatMul { lhs, rhs } => {
            let (l, r) = (type_of(f, lhs), type_of(f, rhs));
            &&& l.dims.len() == 2
            &&& r.dims.len() == 2
            &&& l.dtype == r.dtype
            &&& l.dims[1] is Static && r.dims[0] is Static ==> l.dims[1] == r.dims[0]
        },
        Op::Add { lhs, rhs } => type_of(f, lhs) == type_of(f, rhs),
        Op::Mul { lhs, rhs } => type_of(f, lhs) == type_of(f, rhs),
        _ => true,
    }
}

/// The operation of the value at a position.
pub open spec fn op_at(f: Function, order: Seq<ValueId>, p: int) -> Op {
    f.values@[order[p].0 as int].op
}

/// A function is sound: every value reads only values of the function that stand
/// before it, with types that go together; it ends with a return and has no
/// other; and it returns what it declares.
pub open spec fn sound(f: Function, order: Seq<ValueId>) -> bool {
    &&& order.len() > 0
    &&& forall|p: int, o: ValueId|
        0 <= p < order.len() && #[trigger] reads(op_at(f, order, p), o) ==> o.0 < f.values@.len()
            && exists|q: int| 0 <= q < p && #[trigger] order[q] == o
    &&& forall|p: int| 0 <= p < order.len() ==> #[trigger] types_fit(f, op_at(f, order, p))
    &&& forall|p: int| 0 <= p < order.len() ==> ((#[trigger] op_at(f, order, p)) is Return <==> p
        == order.len() - 1)
    &&& op_at(f, order, order.len() - 1) matches Op::Return { value } && type_of(f, value) == f.ret@
}

/// The values of the blocks follow each other, block by block.
pub proof fn lemma_block_order(blocks: Seq<Block>, b: Block)
    ensures
        block_order(Seq::empty()) == Seq::<ValueId>::empty(),
        block_order(blocks.push(b)) == block_order(blocks) + b.values@,
{
    assert(blocks.push(b).drop_last() =~= blocks);
}

proof fn lemma_reads(op: Op, o: ValueId)
    ensures
        operands_of(op).contains(o) <==> reads(op, o),
{
    let s = operands_of(op);
    if s.len() == 2 {
        assert(s.contains(s[0]) && s.contains(s[1]));
    } else if s.len() == 1 {
        assert(s.contains(s[0]));
    }
}

/// A function has no faults exactly where it is sound: nothing that is wrong gets
/// through, and nothing that is right is reported.
pub proof fn lemma_verifier_exact(f: Function)
    ensures
        function_faults(f).len() == 0 <==> sound(f, block_order(f.blocks@)),
{
    let order = block_order(f.blocks@);
    if function_faults(f).len() == 0 {
        assert(order_faults(f, order).len() == 0);
        assert(return_faults(f, order).len() == 0);
        assert(ends_in_return(f, order));
        lemma_verified_function(f, 0);
        assert forall|p: int, o: ValueId|
            0 <= p < order.len() && #[trigger] reads(op_at(f, order, p), o) implies o.0
            < f.values@.len() && exists|q: int| 0 <= q < p && #[trigger] order[q] == o by {
            lemma_reads(op_at(f, order, p), o);
            lemma_operands_defined_before_use(f, order, p, o);
            let before = order.subrange(0, p);
            let q = choose|q: int| 0 <= q < before.len() && before[q] == o;
            assert(order[q] == o);
        }
        assert forall|p: int| 0 <= p < order.len() implies #[trigger] types_fit(
            f,
            op_at(f, order, p),
        ) by {
            lemma_types_fit(f, order, p);
        }
        lemma_single_return(f, order);
    }
    if sound(f, order) {
        lemma_sound_prefix(f, order, order.len() as int);
        assert(order.subrange(0, order.len() as int) =~= order);
        lemma_returns(f, order, order.len() as int);
        let last = order.len() - 1;
        let v = op_at(f, order, last)->Return_value;
        assert(reads(op_at(f, order, last), v));
        assert(return_faults(f, order) =~= Seq::empty());
        assert(function_faults(f) =~= Seq::empty());
    }
}

/// The types of the operands of the value at a position go together.
proof fn lemma_types_fit(f: Function, order: Seq<ValueId>, p: int)
    requires
        order_faults(f, order).len() == 0,
        0 <= p < order.len(),
    ensures
        types_fit(f, op_at(f, order, p)),
{
    lemma_no_type_fault(f, order, p);
    assert forall|o: ValueId| #[trigger] reads(op_at(f, order, p), o) implies o.0
        < f.values@.len() by {
        lemma_reads(op_at(f, order, p), o);
        lemma_operands_defined_before_use(f, order, p, o);
    }
    match op_at(f, order, p) {
        Op::MatMul { lhs, rhs } => {
            assert(reads(op_at(f, order, p), lhs) && reads(op_at(f, order, p), rhs));
        },
        Op::Add { lhs, rhs } => {
            assert(reads(op_at(f, order, p), lhs) && reads(op_at(f, order, p), rhs));
        },
        Op::Mul { lhs, rhs } => {
            assert(reads(op_at(f, order, p), lhs) && reads(op_at(f, order, p), rhs));
        },
        _ => {},
    }
}

proof fn lemma_no_type_fault(f: Function, order: Seq<ValueId>, p: int)
    requires
        order_faults(f, order).len() == 0,
        0 <= p < order.len(),
    ensures
        type_faults(f, order[p]).len() == 0,
    decreases order.len(),
{
    if p < order.len() - 1 {
        lemma_no_type_fault(f, order.drop_last(), p);
    }
}

/// Where one value is returned and the last one is a return, there is no other.
proof fn lemma_single_return(f: Function, order: Seq<ValueId>)
    requires
        ends_in_return(f, order),
        returned(f, order).len() == 1,
    ensures
        forall|p: int| 0 <= p < order.len() ==> ((#[trigger] op_at(f, order, p)) is Return <==> p
            == order.len() - 1),
{
    let before = order.drop_last();
    assert(returned(f, before).len() == 0);
    assert forall|p: int| 0 <= p < order.len() implies ((#[trigger] op_at(f, order, p)) is Return
        <==> p == order.len() - 1) by {
        if p < order.len() - 1 {
            lemma_none_returned(f, before, p);
            assert(before[p] == order[p]);
        }
    }
}

proof fn lemma_none_returned(f: Function, order: Seq<ValueId>, p: int)
    requires
        returned(f, order).len() == 0,
        0 <= p < order.len(),
    ensures
        !(op_at(f, order, p) is Return),
    decreases order.len(),
{
    if p < order.len() - 1 {
        lemma_none_returned(f, order.drop_last(), p);
    }
}

proof fn lemma_returns(f: Function, order: Seq<ValueId>, k: int)
    requires
        sound(f, order),
        0 <= k <= order.len(),
    ensures
        returned(f, order.subrange(0, k)) == if k == order.len() {
            seq![op_at(f, order, order.len() - 1)->Return_value]
        } else {
            Seq::empty()
        },
    decreases k,
{
    let s = order.subrange(0, k);
    if k > 0 {
        lemma_returns(f, order, k - 1);
        assert(s.drop_last() =~= order.subrange(0, k - 1));
        assert(op_at(f, order, k - 1) is Return <==> k - 1 == order.len() - 1);
    }
    assert(order.subrange(0, order.len() as int) =~= order);
    assert(returned(f, s) =~= if k == order.len() {
        seq![op_at(f, order, order.len() - 1)->Return_value]
    } else {
        Seq::empty()
    });
}

proof fn lemma_sound_prefix(f: Function, order: Seq<ValueId>, k: int)
    requires
        sound(f, order),
        0 <= k <= order.len(),
    ensures
        order_faults(f, order.subrange(0, k)) == Seq::<VerifyFault>::empty(),
    decreases k,
{
    let s = order.subrange(0, k);
    if k > 0 {
        lemma_sound_prefix(f, order, k - 1);
        let seen = order.subrange(0, k - 1);
        assert(s.drop_last() =~= seen);
        let op = op_at(f, order, k - 1);
        assert forall|o: ValueId| #[trigger] operands_of(op).contains(o) implies o.0
            < f.values@.len() && seen.contains(o) by {
            lemma_reads(op, o);
            assert(reads(op_at(f, order, k - 1), o));
            let q = choose|q: int| 0 <= q < k - 1 && #[trigger] order[q] == o;
            assert(seen[q] == o);
        }
        lemma_operands_clean(f, operands_of(op), seen);
        assert(types_fit(f, op_at(f, order, k - 1)));
        match op {
            Op::MatMul { lhs, rhs } => {
                assert(reads(op_at(f, order, k - 1), lhs) && reads(op_at(f, order, k - 1), rhs));
            },
            _ => {},
        }
        assert(type_faults(f, order[k - 1]) =~= Seq::empty());
        assert(order_faults(f, s) =~= Seq::empty());
    }
}

proof fn lemma_operands_clean(f: Function, ops: Seq<ValueId>, seen: Seq<ValueId>)
    requires
        forall|o: ValueId| #[trigger] ops.contains(o) ==> o.0 < f.values@.len() && seen.contains(o),
    ensures
        operand_faults(f, ops, seen) == Seq::<VerifyFault>::empty(),
    decreases ops.len(),
{
    if ops.len() > 0 {
        let before = ops.drop_last();
        assert forall|o: ValueId| #[trigger] before.contains(o) implies o.0 < f.values@.len()
            && seen.contains(o) by {
            let i = choose|i: int| 0 <= i < before.len() && before[i] == o;
            assert(ops[i] == o);
            assert(ops.contains(o));
        }
        lemma_operands_clean(f, before, seen);
        assert(ops.contains(ops[ops.len() - 1]));
        assert(seen.contains(ops.last()));
    }
}

/// What is reported of types that do not go together: the rank before anything
/// else, then the elements, then the inner dimensions; and both types of a sum or
/// an element-wise product.
pub proof fn lemma_type_reports(
    f: Function,
    id: ValueId,
    lhs: ValueId,
    rhs: ValueId,
    lk: u32,
    rk: u32,
)
    requires
        lhs.0 < f.values@.len(),
        rhs.0 < f.values@.len(),
    ensures
        ({
            let op = f.values@[id.0 as int].op;
            let (l, r) = (type_of(f, lhs), type_of(f, rhs));
            let faults = type_faults(f, id);
            &&& op == (Op::MatMul { lhs, rhs }) && (l.dims.len() != 2 || r.dims.len() != 2)
                ==> faults == seq![VerifyFault::MatMulRank(f.name@, id.0)]
            &&& op == (Op::MatMul { lhs, rhs }) && l.dims.len() == 2 && r.dims.len() == 2 && l.dtype
                != r.dtype ==> faults.len() > 0 && faults[0] == VerifyFault::MatMulDType(
                f.name@,
                id.0,
                l.dtype,
                r.dtype,
            )
            &&& op == (Op::MatMul { lhs, rhs }) && l.dims.len() == 2 && r.dims.len() == 2
                && l.dims[1] == Dim::Static(lk) && r.dims[0] == Dim::Static(rk) && lk != rk
                ==> faults.len() > 0 && faults.last() == VerifyFault::MatMulInner(
                f.name@,
                id.0,
                lk,
                rk,
            )
            &&& (op == (Op::Add { lhs, rhs }) || op == (Op::Mul { lhs, rhs })) && l != r ==> faults
                == seq![VerifyFault::BinTypeMismatch(f.name@, id.0, l, r)]
        }),
{
}

/// What is reported of the end of a function: that it has no return at its end,
/// that it has more than one, or that it returns another type than it declares.
pub proof fn lemma_return_reports(f: Function, order: Seq<ValueId>)
    ensures
        returned(f, order).len() == 0 ==> return_faults(f, order) == seq![
            VerifyFault::NoReturn(f.name@),
        ],
        returned(f, order).len() > 1 ==> return_faults(f, order) == seq![
            VerifyFault::MultipleReturns(f.name@),
        ],
        ends_in_return(f, order) && returned(f, order).len() == 1 && returned(f, order)[0].0
            < f.values@.len() && type_of(f, returned(f, order)[0]) != f.ret@ ==> return_faults(
            f,
            order,
        ) == seq![
            VerifyFault::ReturnTypeMismatch(f.name@, f.ret@, type_of(f, returned(f, order)[0])),
        ],
{
    let rets = returned(f, order);
    if rets.len() == 0 && ends_in_return(f, order) {
        assert(returned(f, order).len() > 0);
    }
    if ends_in_return(f, order) && rets.len() == 1 {
        assert(return_faults(f, order) =~= if rets[0].0 < f.values@.len() && type_of(f, rets[0])
            != f.ret@ {
            seq![VerifyFault::ReturnTypeMismatch(f.name@, f.ret@, type_of(f, rets[0]))]
        } else {
            Seq::empty()
        });
    }
}

/// What is reported of an operand: that it is no value, or that it is not defined
/// yet. The faults of the functions of a module follow each other.
pub proof fn lemma_operand_reports(
    f: Function,
    o: ValueId,
    seen: Seq<ValueId>,
    fs: Seq<Function>,
)
    ensures
        o.0 >= f.values@.len() ==> operand_faults(f, seq![o], seen) == seq![
            VerifyFault::UndefinedValue(f.name@, o.0),
        ],
        o.0 < f.values@.len() && !seen.contains(o) ==> operand_faults(f, seq![o], seen) == seq![
            VerifyFault::UseBeforeDef(f.name@, o.0),
        ],
        module_faults(Seq::empty()) == Seq::<VerifyFault>::empty(),
        module_faults(fs.push(f)) == module_faults(fs) + function_faults(f),
{
    assert(seq![o].drop_last() =~= Seq::empty());
    assert(operand_faults(f, Seq::empty(), seen) == Seq::<VerifyFault>::empty());
    assert(fs.push(f).drop_last() =~= fs);
}

} // verus!
