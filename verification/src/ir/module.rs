//! IR container: module, function, block, value.

use crate::ir::op::Op;
use crate::ir::ty::TensorType;
use vstd::prelude::*;

verus! {

/// Stable index into [`Function::values`]. Survives reordering of basic blocks.
#[derive(Copy, Clone, Debug, PartialEq, Eq, Hash, Structural)]
pub struct ValueId(pub u32);

/// An operation and the type of its result.
#[derive(Clone, Debug)]
pub struct Value {
    pub op: Op,
    pub ty: TensorType,
}

/// The values of a basic block, in the order in which they are computed.
#[derive(Clone, Debug)]
pub struct Block {
    pub values: Vec<ValueId>,
}

impl Default for Block {
    fn default() -> (b: Self)
        ensures
            b.values@ == Seq::<ValueId>::empty(),
    {
        Block { values: Vec::new() }
    }
}

/// A function: its signature, its values and its blocks.
#[derive(Clone, Debug)]
pub struct Function {
    pub name: String,
    pub params: Vec<TensorType>,
    pub ret: TensorType,
    pub values: Vec<Value>,
    pub blocks: Vec<Block>,
    /// The value that stands for each parameter.
    pub param_values: Vec<ValueId>,
}

/// The low 32 bits of a position, as a value id.
pub open spec fn id_at(i: int) -> ValueId {
    ValueId((i % 0x1_0000_0000) as u32)
}

/// The id of a position.
pub(crate) fn make_id(i: usize) -> (id: ValueId)
    ensures
        id == id_at(i as int),
{
    ValueId((i as u64 % 0x1_0000_0000) as u32)
}

/// The ids of the first `n` positions.
pub open spec fn first_ids(n: nat) -> Seq<ValueId> {
    Seq::new(n, |i: int| id_at(i))
}

impl Function {
    /// A function whose only values are its parameters: the `i`-th value is
    /// the `i`-th parameter, in the only block.
    pub fn new(name: &str, params: Vec<TensorType>, ret: TensorType) -> (f: Self)
        ensures
            f.name@ == name@,
            f.params == params,
            f.ret == ret,
            f.values@.len() == params@.len(),
            forall|i: int|
                0 <= i < params@.len() ==> (#[trigger] f.values@[i]).op == (Op::Param {
                    index: id_at(i).0,
                }) && f.values@[i].ty@ == params@[i]@,
            f.param_values@ == first_ids(params@.len()),
            f.blocks@.len() == 1,
            f.blocks@[0].values@ == first_ids(params@.len()),
    {
        let mut values: Vec<Value> = Vec::new();
        let mut param_values: Vec<ValueId> = Vec::new();
        let mut body: Block = Block::default();
        let mut i: usize = 0;
        while i < params.len()
            invariant
                i <= params@.len(),
                values@.len() == i,
                forall|j: int|
                    0 <= j < i ==> (#[trigger] values@[j]).op == (Op::Param { index: id_at(j).0 })
                        && values@[j].ty@ == params@[j]@,
                param_values@ == first_ids(i as nat),
                body.values@ == first_ids(i as nat),
            decreases params@.len() - i,
        {
            let id = make_id(i);
            values.push(Value { op: Op::Param { index: id.0 }, ty: params[i].clone() });
            param_values.push(id);
            body.values.push(id);
            i = i + 1;
            assert(first_ids(i as nat) =~= first_ids((i - 1) as nat).push(id_at(i - 1)));
        }
        let mut blocks: Vec<Block> = Vec::new();
        blocks.push(body);
        Self { name: name.to_string(), params, ret, values, blocks, param_values }
    }

    /// Appends a value to the last block and returns its id.
    pub fn push(&mut self, value: Value) -> (id: ValueId)
        requires
            old(self).blocks@.len() > 0,
        ensures
            id == id_at(old(self).values@.len() as int),
            final(self).name == old(self).name,
            final(self).params == old(self).params,
            final(self).ret == old(self).ret,
            final(self).param_values == old(self).param_values,
            final(self).values@ == old(self).values@.push(value),
            final(self).blocks@.len() == old(self).blocks@.len(),
            forall|i: int|
                0 <= i < old(self).blocks@.len() - 1 ==> final(self).blocks@[i] == old(
                    self,
                ).blocks@[i],
            final(self).blocks@.last().values@ == old(self).blocks@.last().values@.push(id),
    {
        let id = make_id(self.values.len());
        self.values.push(value);
        let last: usize = self.blocks.len() - 1;
        self.blocks[last].values.push(id);
        id
    }
}

/// A compilation unit.
#[derive(Clone, Debug)]
pub struct IrModule {
    pub functions: Vec<Function>,
}

impl Default for IrModule {
    fn default() -> (m: Self)
        ensures
            m.functions@ == Seq::<Function>::empty(),
    {
        IrModule { functions: Vec::new() }
    }
}

} // verus!
