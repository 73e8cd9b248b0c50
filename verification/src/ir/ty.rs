//! IR types. Tensor shape lives in the type system.

use vstd::prelude::*;

verus! {

/// Element type of a tensor.
#[derive(Copy, Clone, Debug, PartialEq, Eq, Hash, Structural)]
pub enum DType {
    F16,
    F32,
    I32,
    /// 4-bit, block-quantized (32 values per block + fp16 scale). GGUF compatible.
    Q4_0,
    /// 8-bit, block-quantized (32 values per block + fp16 scale).
    Q8_0,
}

impl DType {
    /// Bytes per element, times 1000 to keep integer math for fractional
    /// sizes: a Q4_0 value takes 4 bits and a 32nd of a 2-byte scale, a Q8_0
    /// value 8 bits and a 32nd of a 2-byte scale.
    pub open spec fn millibytes(self) -> u32 {
        match self {
            DType::F16 => 2_000,
            DType::F32 => 4_000,
            DType::I32 => 4_000,
            DType::Q4_0 => 562,
            DType::Q8_0 => 1_062,
        }
    }

    /// Bytes per element, times 1000.
    pub fn bytes_per_element_x1000(self) -> (n: u32)
        ensures
            n == self.millibytes(),
    {
        match self {
            DType::F16 => 2_000,
            DType::F32 => 4_000,
            DType::I32 => 4_000,
            DType::Q4_0 => 500 + (2_000 / 32),
            DType::Q8_0 => 1_000 + (2_000 / 32),
        }
    }
}

/// One dimension of a shape.
#[derive(Copy, Clone, Debug, PartialEq, Eq, Hash, Structural)]
pub enum Dim {
    Static(u32),
    /// Resolved when the kernel is specialized. Holds an id, so two
    /// `Dynamic(0)` refer to the same dimension.
    Dynamic(u32),
}

/// The dimensions of a tensor, outermost first.
#[derive(Debug, PartialEq, Eq, Hash)]
pub struct Shape(pub Vec<Dim>);

impl View for Shape {
    type V = Seq<Dim>;

    open spec fn view(&self) -> Seq<Dim> {
        self.0@
    }
}

impl Clone for Shape {
    fn clone(&self) -> (r: Self)
        ensures
            r@ == self@,
    {
        let mut dims: Vec<Dim> = Vec::new();
        let mut i: usize = 0;
        while i < self.0.len()
            invariant
                i <= self@.len(),
                dims@ == self@.subrange(0, i as int),
            decreases self@.len() - i,
        {
            dims.push(self.0[i]);
            i = i + 1;
            assert(self@.subrange(0, i as int) =~= self@.subrange(0, i - 1).push(self@[i - 1]));
        }
        assert(self@.subrange(0, i as int) =~= self@);
        Shape(dims)
    }
}

impl Shape {
    /// Whether the two shapes have the same dimensions.
    pub fn same(&self, other: &Shape) -> (b: bool)
        ensures
            b == (self@ == other@),
    {
        if self.0.len() != other.0.len() {
            return false;
        }
        let mut i: usize = 0;
        while i < self.0.len()
            invariant
                i <= self@.len(),
                self@.len() == other@.len(),
                forall|j: int| 0 <= j < i ==> self@[j] == other@[j],
            decreases self@.len() - i,
        {
            if self.0[i] != other.0[i] {
                return false;
            }
            i = i + 1;
        }
        assert(self@ =~= other@);
        true
    }
}

/// What a [`TensorType`] says, with the shape as a sequence.
pub struct TensorTypeView {
    pub dtype: DType,
    pub dims: Seq<Dim>,
}

/// Element type and shape of a tensor.
#[derive(Debug, PartialEq, Eq, Hash)]
pub struct TensorType {
    pub dtype: DType,
    pub shape: Shape,
}

impl View for TensorType {
    type V = TensorTypeView;

    open spec fn view(&self) -> TensorTypeView {
        TensorTypeView { dtype: self.dtype, dims: self.shape@ }
    }
}

impl Clone for TensorType {
    fn clone(&self) -> (r: Self)
        ensures
            r@ == self@,
    {
        TensorType { dtype: self.dtype, shape: self.shape.clone() }
    }
}

impl TensorType {
    /// Whether every dimension is known.
    pub fn is_fully_static(&self) -> (b: bool)
        ensures
            b == (forall|i: int| 0 <= i < self@.dims.len() ==> #[trigger] self@.dims[i] is Static),
    {
        let mut i: usize = 0;
        while i < self.shape.0.len()
            invariant
                i <= self@.dims.len(),
                forall|j: int| 0 <= j < i ==> #[trigger] self@.dims[j] is Static,
            decreases self@.dims.len() - i,
        {
            match self.shape.0[i] {
                Dim::Static(_) => {},
                Dim::Dynamic(_) => {
                    assert(!(self@.dims[i as int] is Static));
                    return false;
                },
            }
            i = i + 1;
        }
        true
    }

    /// Whether the two types are the same.
    pub fn same(&self, other: &TensorType) -> (b: bool)
        ensures
            b == (self@ == other@),
    {
        self.dtype == other.dtype && self.shape.same(&other.shape)
    }
}

} // verus!
