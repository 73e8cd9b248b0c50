//! IR verifier. Catches malformed IR before it is handed to the backend.
//!
//! Checks:
//!   - Every operand refers to a defined value.
//!   - Every operand is defined before use (SSA): it stands earlier in its own
//!     block, or in a block before it.
//!   - Function bodies end with exactly one `Return`.
//!   - Tensor type consistency for binary ops.
//!   - MatMul shape rule: rank-2, dtype match, inner dim match.

use crate::ir::module::{Block, Function, IrModule, ValueId};
use crate::ir::op::Op;
use crate::ir::printer::{type_debug, push_type_debug};
use crate::ir::ty::{DType, Dim, TensorType, TensorTypeView};
use crate::text::{decimal, push_decimal, push_text};
use crate::ir::op::{dtype_debug, dtype_name};
use vstd::prelude::*;

verus! {

/// What is wrong with a function. The first field is the function's name.
#[derive(Debug)]
pub enum VerifyError {
    UndefinedValue(String, u32),
    UseBeforeDef(String, u32),
    NoReturn(String),
    MultipleReturns(String),
    MatMulRank(String, u32),
    MatMulDType(String, u32, DType, DType),
    MatMulInner(String, u32, u32, u32),
    BinTypeMismatch(String, u32, TensorType, TensorType),
    ReturnTypeMismatch(String, TensorType, TensorType),
}

/// What a [`VerifyError`] says.
pub enum VerifyFault {
    UndefinedValue(Seq<char>, u32),
    UseBeforeDef(Seq<char>, u32),
    NoReturn(Seq<char>),
    MultipleReturns(Seq<char>),
    MatMulRank(Seq<char>, u32),
    MatMulDType(Seq<char>, u32, DType, DType),
    MatMulInner(Seq<char>, u32, u32, u32),
    BinTypeMismatch(Seq<char>, u32, TensorTypeView, TensorTypeView),
    ReturnTypeMismatch(Seq<char>, TensorTypeView, TensorTypeView),
}

impl View for VerifyError {
    type V = VerifyFault;

    open spec fn view(&self) -> VerifyFault {
        match self {
            VerifyError::UndefinedValue(f, v) => VerifyFault::UndefinedValue(f@, *v),
            VerifyError::UseBeforeDef(f, v) => VerifyFault::UseBeforeDef(f@, *v),
            VerifyError::NoReturn(f) => VerifyFault::NoReturn(f@),
            VerifyError::MultipleReturns(f) => VerifyFault::MultipleReturns(f@),
            VerifyError::MatMulRank(f, v) => VerifyFault::MatMulRank(f@, *v),
            VerifyError::MatMulDType(f, v, a, b) => VerifyFault::MatMulDType(f@, *v, *a, *b),
            VerifyError::MatMulInner(f, v, a, b) => VerifyFault::MatMulInner(f@, *v, *a, *b),
            VerifyError::BinTypeMismatch(f, v, a, b) => VerifyFault::BinTypeMismatch(
                f@,
                *v,
                a@,
                b@,
            ),
            VerifyError::ReturnTypeMismatch(f, a, b) => VerifyFault::ReturnTypeMismatch(
                f@,
                a@,
                b@,
            ),
        }
    }
}

impl VerifyFault {
    /// The message shown to the user.
    pub open spec fn text(self) -> Seq<char> {
        match self {
            VerifyFault::UndefinedValue(f, v) => "function `"@ + f + "`: undefined value %"@
                + decimal(v as nat),
            VerifyFault::UseBeforeDef(f, v) => "function `"@ + f + "`: value %"@ + decimal(v as nat)
                + " used before defined"@,
            VerifyFault::NoReturn(f) => "function `"@ + f + "` has no terminator (return)"@,
            VerifyFault::MultipleReturns(f) => "function `"@ + f + "` has multiple terminators"@,
            VerifyFault::MatMulRank(f, v) => "function `"@ + f + "`: matmul %"@ + decimal(v as nat)
                + " requires rank-2 tensors"@,
            VerifyFault::MatMulDType(f, v, a, b) => "function `"@ + f + "`: matmul %"@ + decimal(
                v as nat,
            ) + " dtype mismatch ("@ + dtype_debug(a) + " vs "@ + dtype_debug(b) + ")"@,
            VerifyFault::MatMulInner(f, v, a, b) => "function `"@ + f + "`: matmul %"@ + decimal(
                v as nat,
            ) + " inner dim mismatch ("@ + decimal(a as nat) + " vs "@ + decimal(b as nat) + ")"@,
            VerifyFault::BinTypeMismatch(f, v, a, b) => "function `"@ + f + "`: binary op %"@
                + decimal(v as nat) + " type mismatch ("@ + type_debug(a) + " vs "@ + type_debug(b)
                + ")"@,
            VerifyFault::ReturnTypeMismatch(f, a, b) => "function `"@ + f
                + "`: declared return type "@ + type_debug(a) + " but returns "@ + type_debug(b),
        }
    }
}

impl VerifyError {
    /// The message shown to the user.
    pub fn message(&self) -> (m: String)
        ensures
            m@ == self@.text(),
    {
        let mut m: String = "function `".to_string();
        match self {
            VerifyError::UndefinedValue(f, v) => {
                push_text(&mut m, f.as_str());
                push_text(&mut m, "`: undefined value %");
                push_decimal(&mut m, *v as u64);
            },
            VerifyError::UseBeforeDef(f, v) => {
                push_text(&mut m, f.as_str());
                push_text(&mut m, "`: value %");
                push_decimal(&mut m, *v as u64);
                push_text(&mut m, " used before defined");
            },
            VerifyError::NoReturn(f) => {
                push_text(&mut m, f.as_str());
                push_text(&mut m, "` has no terminator (return)");
            },
            VerifyError::MultipleReturns(f) => {
                push_text(&mut m, f.as_str());
                push_text(&mut m, "` has multiple terminators");
            },
            VerifyError::MatMulRank(f, v) => {
                push_text(&mut m, f.as_str());
                push_text(&mut m, "`: matmul %");
                push_decimal(&mut m, *v as u64);
                push_text(&mut m, " requires rank-2 tensors");
            },
            VerifyError::MatMulDType(f, v, a, b) => {
                push_text(&mut m, f.as_str());
                push_text(&mut m, "`: matmul %");
                push_decimal(&mut m, *v as u64);
                push_text(&mut m, " dtype mismatch (");
                push_text(&mut m, dtype_name(*a));
                push_text(&mut m, " vs ");
                push_text(&mut m, dtype_name(*b));
                push_text(&mut m, ")");
            },
            VerifyError::MatMulInner(f, v, a, b) => {
                push_text(&mut m, f.as_str());
                push_text(&mut m, "`: matmul %");
                push_decimal(&mut m, *v as u64);
                push_text(&mut m, " inner dim mismatch (");
                push_decimal(&mut m, *a as u64);
                push_text(&mut m, " vs ");
                push_decimal(&mut m, *b as u64);
                push_text(&mut m, ")");
            },
            VerifyError::BinTypeMismatch(f, v, a, b) => {
                push_text(&mut m, f.as_str());
                push_text(&mut m, "`: binary op %");
                push_decimal(&mut m, *v as u64);
                push_text(&mut m, " type mismatch (");
                push_type_debug(&mut m, a);
                push_text(&mut m, " vs ");
                push_type_debug(&mut m, b);
                push_text(&mut m, ")");
            },
            VerifyError::ReturnTypeMismatch(f, a, b) => {
                push_text(&mut m, f.as_str());
                push_text(&mut m, "`: declared return type ");
                push_type_debug(&mut m, a);
                push_text(&mut m, " but returns ");
                push_type_debug(&mut m, b);
            },
        }
        m
    }
}

/// The errors of a list, as faults.
pub open spec fn faults_of(errors: Seq<VerifyError>) -> Seq<VerifyFault> {
    errors.map_values(|e: VerifyError| e@)
}

/// The values that an operation reads, in order.
pub open spec fn operands_of(op: Op) -> Seq<ValueId> {
    match op {
        Op::Param { .. } | Op::LoadWeight { .. } | Op::LoadInput { .. } | Op::Constant { .. } => {
            seq![]
        },
        Op::MatMul { lhs, rhs } => seq![lhs, rhs],
        Op::Add { lhs, rhs } => seq![lhs, rhs],
        Op::Mul { lhs, rhs } => seq![lhs, rhs],
        Op::Silu { x } => seq![x],
        Op::Gelu { x } => seq![x],
        Op::Softmax { x, .. } => seq![x],
        Op::Reshape { x, .. } => seq![x],
        Op::Transpose { x, .. } => seq![x],
        Op::Dequantize { x } => seq![x],
        Op::Quantize { x, .. } => seq![x],
        Op::RmsNorm { x, weight, .. } => seq![x, weight],
        Op::Rope { x, positions, .. } => seq![x, positions],
        Op::Return { value } => seq![value],
    }
}

/// The values of the blocks, one block after the other.
pub open spec fn block_order(blocks: Seq<Block>) -> Seq<ValueId>
    decreases blocks.len(),
{
    if blocks.len() == 0 {
        Seq::empty()
    } else {
        block_order(blocks.drop_last()) + blocks.last().values@
    }
}

/// Every id in the blocks is a value of the function.
pub open spec fn blocks_in_range(f: Function) -> bool {
    forall|b: int, i: int|
        0 <= b < f.blocks@.len() && 0 <= i < f.blocks@[b].values@.len() ==> (
        #[trigger] f.blocks@[b].values@[i]).0 < f.values@.len()
}

/// The faults of a list of operands, after the values `seen` are defined: an
/// operand that is no value, or one that is not defined yet.
pub open spec fn operand_faults(
    f: Function,
    operands: Seq<ValueId>,
    seen: Seq<ValueId>,
) -> Seq<VerifyFault>
    decreases operands.len(),
{
    if operands.len() == 0 {
        Seq::empty()
    } else {
        let before = operand_faults(f, operands.drop_last(), seen);
        let o = operands.last();
        if o.0 >= f.values@.len() {
            before.push(VerifyFault::UndefinedValue(f.name@, o.0))
        } else if !seen.contains(o) {
            before.push(VerifyFault::UseBeforeDef(f.name@, o.0))
        } else {
            before
        }
    }
}

/// The faults of the types of one operation. Operands that are no values have
/// no types; they are reported as such.
pub open spec fn type_faults(f: Function, id: ValueId) -> Seq<VerifyFault> {
    let len = f.values@.len();
    match f.values@[id.0 as int].op {
        Op::MatMul { lhs, rhs } => if lhs.0 >= len || rhs.0 >= len {
            Seq::empty()
        } else {
            let l = f.values@[lhs.0 as int].ty@;
            let r = f.values@[rhs.0 as int].ty@;
            if l.dims.len() != 2 || r.dims.len() != 2 {
                seq![VerifyFault::MatMulRank(f.name@, id.0)]
            } else {
                let dtype = if l.dtype != r.dtype {
                    seq![VerifyFault::MatMulDType(f.name@, id.0, l.dtype, r.dtype)]
                } else {
                    Seq::empty()
                };
                match (l.dims[1], r.dims[0]) {
                    (Dim::Static(lk), Dim::Static(rk)) => if lk != rk {
                        dtype.push(VerifyFault::MatMulInner(f.name@, id.0, lk, rk))
                    } else {
                        dtype
                    },
                    _ => dtype,
                }
            }
        },
        Op::Add { lhs, rhs } => binary_faults(f, id, lhs, rhs),
        Op::Mul { lhs, rhs } => binary_faults(f, id, lhs, rhs),
        _ => Seq::empty(),
    }
}

/// The faults of an elementwise operation.
pub open spec fn binary_faults(f: Function, id: ValueId, lhs: ValueId, rhs: ValueId) -> Seq<
    VerifyFault,
> {
    let len = f.values@.len();
    if lhs.0 < len && rhs.0 < len && f.values@[lhs.0 as int].ty@ != f.values@[rhs.0 as int].ty@ {
        seq![
            VerifyFault::BinTypeMismatch(
                f.name@,
                id.0,
                f.values@[lhs.0 as int].ty@,
                f.values@[rhs.0 as int].ty@,
            ),
        ]
    } else {
        Seq::empty()
    }
}

/// The faults of the values `order`, each seeing those before it.
pub open spec fn order_faults(f: Function, order: Seq<ValueId>) -> Seq<VerifyFault>
    decreases order.len(),
{
    if order.len() == 0 {
        Seq::empty()
    } else {
        let seen = order.drop_last();
        let id = order.last();
        order_faults(f, seen) + operand_faults(f, operands_of(f.values@[id.0 as int].op), seen)
            + type_faults(f, id)
    }
}

/// What the returns among the values `order` return, in order.
pub open spec fn returned(f: Function, order: Seq<ValueId>) -> Seq<ValueId>
    decreases order.len(),
{
    if order.len() == 0 {
        Seq::empty()
    } else {
        let before = returned(f, order.drop_last());
        match f.values@[order.last().0 as int].op {
            Op::Return { value } => before.push(value),
            _ => before,
        }
    }
}

/// The last of the values `order` is a return.
pub open spec fn ends_in_return(f: Function, order: Seq<ValueId>) -> bool {
    order.len() > 0 && f.values@[order.last().0 as int].op is Return
}

/// The faults of the end of a function: there must be exactly one return, it
/// must stand last, and it must be of the declared type. A body that goes on
/// after its return has no terminator.
pub open spec fn return_faults(f: Function, order: Seq<ValueId>) -> Seq<VerifyFault> {
    let rets = returned(f, order);
    if rets.len() > 1 {
        seq![VerifyFault::MultipleReturns(f.name@)]
    } else {
        let end = if ends_in_return(f, order) {
            Seq::empty()
        } else {
            seq![VerifyFault::NoReturn(f.name@)]
        };
        if rets.len() == 1 && rets[0].0 < f.values@.len() && f.values@[rets[0].0 as int].ty@
            != f.ret@ {
            end.push(
                VerifyFault::ReturnTypeMismatch(
                    f.name@,
                    f.ret@,
                    f.values@[rets[0].0 as int].ty@,
                ),
            )
        } else {
            end
        }
    }
}

/// Everything that is wrong with a function.
pub open spec fn function_faults(f: Function) -> Seq<VerifyFault> {
    let order = block_order(f.blocks@);
    order_faults(f, order) + return_faults(f, order)
}

/// Everything that is wrong with a list of functions.
pub open spec fn module_faults(functions: Seq<Function>) -> Seq<VerifyFault>
    decreases functions.len(),
{
    if functions.len() == 0 {
        Seq::empty()
    } else {
        module_faults(functions.drop_last()) + function_faults(functions.last())
    }
}

fn operands(op: &Op) -> (v: Vec<ValueId>)
    ensures
        v@ == operands_of(*op),
{
    match op {
        Op::Param { .. } | Op::LoadWeight { .. } | Op::LoadInput { .. } | Op::Constant { .. } => {
            Vec::new()
        },
        Op::MatMul { lhs, rhs } => vec![*lhs, *rhs],
        Op::Add { lhs, rhs } => vec![*lhs, *rhs],
        Op::Mul { lhs, rhs } => vec![*lhs, *rhs],
        Op::Silu { x } => vec![*x],
        Op::Gelu { x } => vec![*x],
        Op::Softmax { x, .. } => vec![*x],
        Op::Reshape { x, .. } => vec![*x],
        Op::Transpose { x, .. } => vec![*x],
        Op::Dequantize { x } => vec![*x],
        Op::Quantize { x, .. } => vec![*x],
        Op::RmsNorm { x, weight, .. } => vec![*x, *weight],
        Op::Rope { x, positions, .. } => vec![*x, *positions],
        Op::Return { value } => vec![*value],
    }
}

fn push_error(errors: &mut Vec<VerifyError>, e: VerifyError)
    ensures
        faults_of(final(errors)@) == faults_of(old(errors)@).push(e@),
{
    errors.push(e);
}

/// `defined[i]` tells whether value `i` is among `seen`.
spec fn tracks(defined: Seq<bool>, seen: Seq<ValueId>) -> bool {
    forall|v: u32| v < defined.len() ==> #[trigger] defined[v as int] == seen.contains(ValueId(v))
}

fn check_operands(f: &Function, ops: &Vec<ValueId>, defined: &Vec<bool>, errors: &mut Vec<
    VerifyError,
>, Ghost(seen): Ghost<Seq<ValueId>>)
    requires
        defined@.len() == f.values@.len(),
        tracks(defined@, seen),
    ensures
        faults_of(final(errors)@) == faults_of(old(errors)@) + operand_faults(*f, ops@, seen),
{
    let mut i: usize = 0;
    while i < ops.len()
        invariant
            i <= ops@.len(),
            defined@.len() == f.values@.len(),
            tracks(defined@, seen),
            faults_of(errors@) == faults_of(old(errors)@) + operand_faults(
                *f,
                ops@.subrange(0, i as int),
                seen,
            ),
        decreases ops@.len() - i,
    {
        let o = ops[i];
        proof {
            let s = ops@.subrange(0, i + 1);
            assert(s.drop_last() =~= ops@.subrange(0, i as int));
            assert(s.last() == o);
        }
        let idx: usize = o.0 as usize;
        if idx >= f.values.len() {
            push_error(errors, VerifyError::UndefinedValue(f.name.clone(), o.0));
        } else {
            assert(defined@[o.0 as int] == seen.contains(ValueId(o.0)));
            if !defined[idx] {
                push_error(errors, VerifyError::UseBeforeDef(f.name.clone(), o.0));
            }
        }
        i = i + 1;
        assert(faults_of(errors@) =~= faults_of(old(errors)@) + operand_faults(
            *f,
            ops@.subrange(0, i as int),
            seen,
        ));
    }
    assert(ops@.subrange(0, i as int) =~= ops@);
}

fn check_binary(f: &Function, id: ValueId, lhs: ValueId, rhs: ValueId, errors: &mut Vec<
    VerifyError,
>)
    ensures
        faults_of(final(errors)@) == faults_of(old(errors)@) + binary_faults(*f, id, lhs, rhs),
{
    let len: usize = f.values.len();
    if (lhs.0 as usize) < len && (rhs.0 as usize) < len {
        let l = &f.values[lhs.0 as usize].ty;
        let r = &f.values[rhs.0 as usize].ty;
        if !l.same(r) {
            push_error(
                errors,
                VerifyError::BinTypeMismatch(f.name.clone(), id.0, l.clone(), r.clone()),
            );
        }
    }
    assert(faults_of(errors@) =~= faults_of(old(errors)@) + binary_faults(*f, id, lhs, rhs));
}

fn check_types(f: &Function, id: ValueId, errors: &mut Vec<VerifyError>)
    requires
        id.0 < f.values@.len(),
    ensures
        faults_of(final(errors)@) == faults_of(old(errors)@) + type_faults(*f, id),
{
    let len: usize = f.values.len();
    match &f.values[id.0 as usize].op {
        Op::MatMul { lhs, rhs } => {
            if (lhs.0 as usize) < len && (rhs.0 as usize) < len {
                let l = &f.values[lhs.0 as usize].ty;
                let r = &f.values[rhs.0 as usize].ty;
                if l.shape.0.len() != 2 || r.shape.0.len() != 2 {
                    push_error(errors, VerifyError::MatMulRank(f.name.clone(), id.0));
                } else {
                    if l.dtype != r.dtype {
                        push_error(
                            errors,
                            VerifyError::MatMulDType(f.name.clone(), id.0, l.dtype, r.dtype),
                        );
                    }
                    match (l.shape.0[1], r.shape.0[0]) {
                        (Dim::Static(lk), Dim::Static(rk)) => {
                            if lk != rk {
                                push_error(
                                    errors,
                                    VerifyError::MatMulInner(f.name.clone(), id.0, lk, rk),
                                );
                            }
                        },
                        _ => {},
                    }
                }
            }
        },
        Op::Add { lhs, rhs } => check_binary(f, id, *lhs, *rhs, errors),
        Op::Mul { lhs, rhs } => check_binary(f, id, *lhs, *rhs, errors),
        _ => {},
    }
    assert(faults_of(errors@) =~= faults_of(old(errors)@) + type_faults(*f, id));
}

fn verify_function(f: &Function, errors: &mut Vec<VerifyError>)
    requires
        blocks_in_range(*f),
    ensures
        faults_of(final(errors)@) == faults_of(old(errors)@) + function_faults(*f),
{
    let mut rets: Vec<ValueId> = Vec::new();
    let mut ended: bool = false;
    let mut defined: Vec<bool> = Vec::new();
    let n: usize = f.values.len();
    while defined.len() < n
        invariant
            n == f.values@.len(),
            defined@.len() <= n,
            forall|i: int| 0 <= i < defined@.len() ==> !#[trigger] defined@[i],
        decreases n - defined@.len(),
    {
        defined.push(false);
    }
    let ghost start = faults_of(errors@);
    let mut b: usize = 0;
    proof {
        assert(start =~= start + order_faults(*f, block_order(f.blocks@.subrange(0, 0))));
        assert(tracks(defined@, block_order(f.blocks@.subrange(0, 0))));
    }
    while b < f.blocks.len()
        invariant
            b <= f.blocks@.len(),
            blocks_in_range(*f),
            defined@.len() == f.values@.len(),
            tracks(defined@, block_order(f.blocks@.subrange(0, b as int))),
            faults_of(errors@) == start + order_faults(
                *f,
                block_order(f.blocks@.subrange(0, b as int)),
            ),
            rets@ == returned(*f, block_order(f.blocks@.subrange(0, b as int))),
            ended == ends_in_return(*f, block_order(f.blocks@.subrange(0, b as int))),
        decreases f.blocks@.len() - b,
    {
        let ghost before = block_order(f.blocks@.subrange(0, b as int));
        let values = &f.blocks[b].values;
        proof {
            assert(before + values@.subrange(0, 0) =~= before);
        }
        let mut i: usize = 0;
        while i < values.len()
            invariant
                i <= values@.len(),
                b < f.blocks@.len(),
                values@ == f.blocks@[b as int].values@,
                blocks_in_range(*f),
                defined@.len() == f.values@.len(),
                tracks(defined@, before + values@.subrange(0, i as int)),
                faults_of(errors@) == start + order_faults(
                    *f,
                    before + values@.subrange(0, i as int),
                ),
                rets@ == returned(*f, before + values@.subrange(0, i as int)),
                ended == ends_in_return(*f, before + values@.subrange(0, i as int)),
            decreases values@.len() - i,
        {
            let id = values[i];
            let ghost seen = before + values@.subrange(0, i as int);
            let ghost longer = before + values@.subrange(0, i + 1);
            proof {
                assert(longer =~= seen.push(id));
                assert(longer.drop_last() =~= seen);
                assert(f.blocks@[b as int].values@[i as int].0 < f.values@.len());
            }
            let ops = operands(&f.values[id.0 as usize].op);
            check_operands(f, &ops, &defined, errors, Ghost(seen));
            check_types(f, id, errors);
            match &f.values[id.0 as usize].op {
                Op::Return { value } => {
                    rets.push(*value);
                    ended = true;
                },
                _ => {
                    ended = false;
                },
            }
            let ghost old_defined = defined@;
            defined[id.0 as usize] = true;
            proof {
                assert(faults_of(errors@) =~= start + order_faults(*f, longer));
                assert forall|j: u32| j < defined@.len() implies #[trigger] defined@[j as int]
                    == longer.contains(ValueId(j)) by {
                    let v = ValueId(j);
                    assert(old_defined[j as int] == seen.contains(v));
                    if j == id.0 {
                        assert(longer[longer.len() - 1] == v);
                    } else if seen.contains(v) {
                        let k = choose|k: int| 0 <= k < seen.len() && seen[k] == v;
                        assert(longer[k] == v);
                    } else if longer.contains(v) {
                        let k = choose|k: int| 0 <= k < longer.len() && longer[k] == v;
                        assert(k < seen.len() ==> seen[k] == v);
                    }
                }
            }
            i = i + 1;
        }
        proof {
            let s = f.blocks@.subrange(0, b + 1);
            assert(s.drop_last() =~= f.blocks@.subrange(0, b as int));
            assert(s.last() == f.blocks@[b as int]);
            assert(values@.subrange(0, i as int) =~= values@);
        }
        b = b + 1;
    }
    proof {
        assert(f.blocks@.subrange(0, b as int) =~= f.blocks@);
    }
    if rets.len() > 1 {
        push_error(errors, VerifyError::MultipleReturns(f.name.clone()));
    } else {
        if !ended {
            push_error(errors, VerifyError::NoReturn(f.name.clone()));
        }
        if rets.len() == 1 {
            let v: usize = rets[0].0 as usize;
            if v < f.values.len() {
                let actual = &f.values[v].ty;
                if !actual.same(&f.ret) {
                    push_error(
                        errors,
                        VerifyError::ReturnTypeMismatch(
                            f.name.clone(),
                            f.ret.clone(),
                            actual.clone(),
                        ),
                    );
                }
            }
        }
    }
    assert(faults_of(errors@) =~= start + function_faults(*f));
}

/// Checks a module: success where nothing is wrong with any of its functions,
/// and otherwise everything that is, in order.
pub fn verify_module(m: &IrModule) -> (r: Result<(), Vec<VerifyError>>)
    requires
        forall|i: int| 0 <= i < m.functions@.len() ==> #[trigger] blocks_in_range(m.functions@[i]),
    ensures
        r is Ok <==> module_faults(m.functions@).len() == 0,
        r matches Err(errors) ==> faults_of(errors@) == module_faults(m.functions@),
{
    let mut errors: Vec<VerifyError> = Vec::new();
    let mut i: usize = 0;
    assert(faults_of(errors@) =~= module_faults(m.functions@.subrange(0, 0)));
    while i < m.functions.len()
        invariant
            i <= m.functions@.len(),
            forall|j: int|
                0 <= j < m.functions@.len() ==> #[trigger] blocks_in_range(m.functions@[j]),
            faults_of(errors@) == module_faults(m.functions@.subrange(0, i as int)),
        decreases m.functions@.len() - i,
    {
        verify_function(&m.functions[i], &mut errors);
        proof {
            let s = m.functions@.subrange(0, i + 1);
            assert(s.drop_last() =~= m.functions@.subrange(0, i as int));
            assert(s.last() == m.functions@[i as int]);
        }
        i = i + 1;
    }
    assert(m.functions@.subrange(0, i as int) =~= m.functions@);
    if errors.len() == 0 {
        Ok(())
    } else {
        assert(faults_of(errors@).len() == errors@.len());
        Err(errors)
    }
}

/// A function without faults is in SSA form: each operand of the value at
/// position `p` is a value of the function that stands at an earlier position.
pub proof fn lemma_operands_defined_before_use(f: Function, order: Seq<ValueId>, p: int, o: ValueId)
    requires
        order_faults(f, order).len() == 0,
        0 <= p < order.len(),
        operands_of(f.values@[order[p].0 as int].op).contains(o),
    ensures
        o.0 < f.values@.len(),
        order.subrange(0, p).contains(o),
    decreases order.len(),
{
    let seen = order.drop_last();
    let ops = operands_of(f.values@[order.last().0 as int].op);
    assert(order_faults(f, seen).len() == 0);
    if p < order.len() - 1 {
        lemma_operands_defined_before_use(f, seen, p, o);
        assert(seen.subrange(0, p) =~= order.subrange(0, p));
    } else {
        assert(operand_faults(f, ops, seen).len() == 0);
        lemma_operand_clean(f, ops, seen, o);
        assert(order.subrange(0, p) =~= seen);
    }
}

proof fn lemma_operand_clean(f: Function, ops: Seq<ValueId>, seen: Seq<ValueId>, o: ValueId)
    requires
        operand_faults(f, ops, seen).len() == 0,
        ops.contains(o),
    ensures
        o.0 < f.values@.len(),
        seen.contains(o),
    decreases ops.len(),
{
    if ops.last() != o {
        let k = choose|k: int| 0 <= k < ops.len() && ops[k] == o;
        assert(ops.drop_last()[k] == o);
        lemma_operand_clean(f, ops.drop_last(), seen, o);
    }
}

/// A function without faults ends with its only return, of a value of the
/// declared type, and each of its matrix products has rank-2 operands of one element
/// type whose static inner dimensions agree.
pub proof fn lemma_verified_function(f: Function, p: int)
    requires
        function_faults(f).len() == 0,
        0 <= p < block_order(f.blocks@).len(),
    ensures
        ends_in_return(f, block_order(f.blocks@)),
        returned(f, block_order(f.blocks@)).len() == 1,
        ({
            let v = returned(f, block_order(f.blocks@))[0];
            &&& v.0 < f.values@.len()
            &&& f.values@[v.0 as int].ty@ == f.ret@
        }),
        f.values@[block_order(f.blocks@)[p].0 as int].op matches Op::MatMul { lhs, rhs } ==> {
            let l = f.values@[lhs.0 as int].ty@;
            let r = f.values@[rhs.0 as int].ty@;
            &&& l.dims.len() == 2 && r.dims.len() == 2
            &&& l.dtype == r.dtype
            &&& (l.dims[1] is Static && r.dims[0] is Static ==> l.dims[1] == r.dims[0])
        },
{
    let order = block_order(f.blocks@);
    assert(order_faults(f, order).len() == 0);
    assert(return_faults(f, order).len() == 0);
    assert(returned(f, order) == returned(f, order.drop_last()).push(
        f.values@[order.last().0 as int].op->Return_value,
    ));
    let v = f.values@[order.last().0 as int].op->Return_value;
    assert(operands_of(f.values@[order.last().0 as int].op)[0] == v);
    lemma_operands_defined_before_use(f, order, order.len() - 1, v);
    lemma_type_clean(f, order, p);
    match f.values@[order[p].0 as int].op {
        Op::MatMul { lhs, rhs } => {
            let ops = operands_of(f.values@[order[p].0 as int].op);
            assert(ops[0] == lhs && ops[1] == rhs);
            lemma_operands_defined_before_use(f, order, p, lhs);
            lemma_operands_defined_before_use(f, order, p, rhs);
        },
        _ => {},
    }
}

proof fn lemma_type_clean(f: Function, order: Seq<ValueId>, p: int)
    requires
        order_faults(f, order).len() == 0,
        0 <= p < order.len(),
    ensures
        type_faults(f, order[p]).len() == 0,
    decreases order.len(),
{
    if p < order.len() - 1 {
        lemma_type_clean(f, order.drop_last(), p);
    }
}

} // verus!
