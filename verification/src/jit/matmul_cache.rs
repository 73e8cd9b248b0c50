//! Shape-indexed kernel cache for matrix products.
//!
//! `A [M, K] @ B [K, N] -> C [M, N]`, all row-major. The backend picks a kernel
//! by the divisibility of `M` and `N`.

use crate::codegen::assembler::assemble;
use crate::codegen::backend::{Backend, CodegenFault, CodegenOpts, Lowering};
use crate::codegen::selection_laws::{lemma_matmul_function_selection, product_function};
use crate::codegen::x86_64::{
    function_lowering, matmul_kernel, module_lowering, param_register, positions, q8_kernel,
    q8_lowering, q8q8_kernel, q8q8_lowering, quant_matmul_lowering, row_fits, two_dims, Abi,
    FunctionLowering, OpKind, X86_64,
};
use crate::ir::module::{id_at, Function, IrModule, Value, ValueId};
use crate::ir::op::Op;
use crate::ir::ty::{DType, Dim, Shape, TensorType, TensorTypeView};
use crate::jit::exec::{ExecError, ExecRegion};
use crate::text::push_text;
use vstd::prelude::*;

verus! {

/// Why a kernel could not be had.
#[derive(Debug)]
pub enum JitError {
    Codegen(String),
    Exec(ExecError),
}

impl JitError {
    /// The message shown to the user.
    pub open spec fn text(&self) -> Seq<char> {
        match self {
            JitError::Codegen(s) => "codegen failed: "@ + s@,
            JitError::Exec(e) => "exec region setup failed: "@ + e.text(),
        }
    }

    /// The message shown to the user.
    pub fn message(&self) -> (m: String)
        ensures
            m@ == self.text(),
    {
        match self {
            JitError::Codegen(s) => {
                let mut m: String = "codegen failed: ".to_string();
                push_text(&mut m, s.as_str());
                m
            },
            JitError::Exec(e) => {
                let mut m: String = "exec region setup failed: ".to_string();
                let t = e.message();
                push_text(&mut m, t.as_str());
                m
            },
        }
    }
}

/// A rank-2 type of known dimensions.
pub open spec fn matrix(dtype: DType, rows: u32, cols: u32) -> TensorTypeView {
    TensorTypeView { dtype, dims: seq![Dim::Static(rows), Dim::Static(cols)] }
}

fn matrix_type(dtype: DType, rows: u32, cols: u32) -> (t: TensorType)
    ensures
        t@ == matrix(dtype, rows, cols),
{
    let mut dims: Vec<Dim> = Vec::new();
    dims.push(Dim::Static(rows));
    dims.push(Dim::Static(cols));
    assert(dims@ =~= seq![Dim::Static(rows), Dim::Static(cols)]);
    TensorType { dtype, shape: Shape(dims) }
}

fn no_type() -> (t: TensorType)
    ensures
        t@ == (TensorTypeView { dtype: DType::F32, dims: Seq::<Dim>::empty() }),
{
    let dims: Vec<Dim> = Vec::new();
    assert(dims@ =~= Seq::<Dim>::empty());
    TensorType { dtype: DType::F32, shape: Shape(dims) }
}

/// The kernel of `A [m, k] @ B [k, n]`, which takes `A`, `B` and the result.
pub open spec fn f32_kernel(abi: Abi, avx2: bool, m: u32, k: u32, n: u32) -> Seq<u8> {
    assemble(
        matmul_kernel(
            param_register(abi, 0),
            param_register(abi, 1),
            param_register(abi, 2),
            m,
            k,
            n,
            abi,
            avx2,
        ),
    )
}

/// The fused kernel of Q8_0 weights `[m, k]` times fp32 activations `[k, n]`.
pub open spec fn q8_f32_kernel(abi: Abi, m: u32, k: u32, n: u32) -> Seq<u8> {
    assemble(
        q8_kernel(
            param_register(abi, 0),
            param_register(abi, 1),
            param_register(abi, 2),
            m,
            k,
            n,
            abi,
            false,
        ),
    )
}

/// The fused kernel of Q8_0 weights `[m, k]` times Q8_0 activations `[k, 1]`.
pub open spec fn q8_q8_kernel(abi: Abi, m: u32, k: u32) -> Seq<u8> {
    assemble(
        q8q8_kernel(
            param_register(abi, 0),
            param_register(abi, 1),
            param_register(abi, 2),
            m,
            k,
            abi,
            None,
        ),
    )
}

/// The region of a compiled module.
fn region_of(ir: &IrModule, backend: &X86_64) -> (r: Result<ExecRegion, JitError>)
    requires
        !(module_lowering(ir, backend.abi, backend.avx2, None, false) is Undefined),
    ensures
        match module_lowering(ir, backend.abi, backend.avx2, None, false) {
            Lowering::Emits(bytes) => r matches Ok(region) && region.image() == bytes
                && region.entry() == 0,
            Lowering::Fails(e) => r matches Err(JitError::Codegen(s)) && s@ == e.debug(),
            Lowering::Undefined => false,
        },
{
    let opts = CodegenOpts::default();
    match backend.lower(ir, &opts) {
        Ok(mc) => match ExecRegion::from_machine_code(&mc) {
            Ok(region) => Ok(region),
            Err(e) => Err(JitError::Exec(e)),
        },
        Err(e) => Err(JitError::Codegen(e.debug_text())),
    }
}

/// Builds the IR for an `A @ B` product of the given shape and compiles it.
fn compile_matmul(backend: &X86_64, m: u32, k: u32, n: u32) -> (r: Result<ExecRegion, JitError>)
    ensures
        r matches Ok(region) && region.image() == f32_kernel(backend.abi, backend.avx2, m, k, n)
            && region.entry() == 0,
{
    let mut params: Vec<TensorType> = Vec::new();
    params.push(matrix_type(DType::F32, m, k));
    params.push(matrix_type(DType::F32, k, n));
    let mut f = Function::new("matmul", params, matrix_type(DType::F32, m, n));
    let a = f.param_values[0];
    let b = f.param_values[1];
    let prod = f.push(
        Value { op: Op::MatMul { lhs: a, rhs: b }, ty: matrix_type(DType::F32, m, n) },
    );
    f.push(Value { op: Op::Return { value: prod }, ty: no_type() });
    proof {
        assert(product_function(f, m, k, n));
        lemma_matmul_function_selection(
            f,
            m,
            k,
            n,
            backend.abi,
            backend.avx2,
            None,
            false,
        );
    }
    let mut functions: Vec<Function> = Vec::new();
    functions.push(f);
    let ir = IrModule { functions };
    region_of(&ir, backend)
}

/// A function that dequantizes its first parameter and multiplies it with the
/// second.
spec fn is_q8_product(f: Function, a: TensorTypeView, b: TensorTypeView) -> bool {
    let vs = f.values@;
    &&& f.params@.len() == 2
    &&& vs.len() == 5
    &&& vs[0].op == (Op::Param { index: 0 }) && vs[0].ty@ == a
    &&& vs[1].op == (Op::Param { index: 1 }) && vs[1].ty@ == b
    &&& vs[2].op == (Op::Dequantize { x: ValueId(0) })
    &&& vs[3].op == (Op::MatMul { lhs: ValueId(2), rhs: ValueId(1) })
    &&& vs[4].op == (Op::Return { value: ValueId(3) })
}

/// What a fused product with fp32 activations comes to.
pub open spec fn q8_f32_result(abi: Abi, m: u32, k: u32, n: u32) -> Result<Seq<u8>, CodegenFault> {
    if k % 32 != 0 {
        Err(
            CodegenFault::ShapeError(
                "Phase 5.C: K must be a multiple of 32 (Q8_0 block size)"@,
            ),
        )
    } else if n != 1 && n % 8 != 0 {
        Err(
            CodegenFault::ShapeError(
                "Phase 5.C: N must be 1 (decode) or a multiple of 8 (prefill)"@,
            ),
        )
    } else {
        Ok(q8_f32_kernel(abi, m, k, n))
    }
}

/// What a fused product with Q8_0 activations comes to.
pub open spec fn q8_q8_result(abi: Abi, m: u32, k: u32) -> Result<Seq<u8>, CodegenFault> {
    if k % 32 != 0 {
        Err(
            CodegenFault::ShapeError(
                "Phase 7.M: K must be a multiple of 32 (Q8_0 block size)"@,
            ),
        )
    } else {
        Ok(q8_q8_kernel(abi, m, k))
    }
}

proof fn lemma_q8_product(f: Function, m: u32, k: u32, n: u32, abi: Abi, avx2: bool)
    requires
        is_q8_product(f, matrix(DType::Q8_0, m, k), matrix(DType::F32, k, n)),
        q8_f32_result(abi, m, k, n) is Ok ==> row_fits(k),
    ensures
        match q8_f32_result(abi, m, k, n) {
            Ok(_) => function_lowering(f, abi, avx2, None, false) == FunctionLowering::Emits(
                q8_kernel(
                    param_register(abi, 0),
                    param_register(abi, 1),
                    param_register(abi, 2),
                    m,
                    k,
                    n,
                    abi,
                    false,
                ),
            ),
            Err(e) => function_lowering(f, abi, avx2, None, false) == FunctionLowering::Fails(e),
        },
{
    reveal_with_fuel(positions, 6);
    let vs = f.values@;
    assert(positions(vs, OpKind::RmsNorm).len() == 0);
    assert(positions(vs, OpKind::Dequantize) =~= seq![2int]);
    assert(positions(vs, OpKind::MatMul) =~= seq![3int]);
    assert(id_at(2) == ValueId(2));
    assert(two_dims(vs[0].ty@) == Ok::<(u32, u32), CodegenFault>((m, k)));
    assert(two_dims(vs[1].ty@) == Ok::<(u32, u32), CodegenFault>((k, n)));
    assert(quant_matmul_lowering(f, abi, None, false) == q8_lowering(f, 0, 1, abi, false));
}

/// A function that dequantizes both parameters and multiplies them.
spec fn is_q8q8_product(f: Function, a: TensorTypeView, b: TensorTypeView) -> bool {
    let vs = f.values@;
    &&& f.params@.len() == 2
    &&& vs.len() == 6
    &&& vs[0].op == (Op::Param { index: 0 }) && vs[0].ty@ == a
    &&& vs[1].op == (Op::Param { index: 1 }) && vs[1].ty@ == b
    &&& vs[2].op == (Op::Dequantize { x: ValueId(0) })
    &&& vs[3].op == (Op::Dequantize { x: ValueId(1) })
    &&& vs[4].op == (Op::MatMul { lhs: ValueId(2), rhs: ValueId(3) })
    &&& vs[5].op == (Op::Return { value: ValueId(4) })
}

proof fn lemma_q8q8_product(f: Function, m: u32, k: u32, abi: Abi, avx2: bool)
    requires
        is_q8q8_product(f, matrix(DType::Q8_0, m, k), matrix(DType::Q8_0, k, 1)),
        q8_q8_result(abi, m, k) is Ok ==> row_fits(k),
    ensures
        match q8_q8_result(abi, m, k) {
            Ok(_) => function_lowering(f, abi, avx2, None, false) == FunctionLowering::Emits(
                q8q8_kernel(
                    param_register(abi, 0),
                    param_register(abi, 1),
                    param_register(abi, 2),
                    m,
                    k,
                    abi,
                    None,
                ),
            ),
            Err(e) => function_lowering(f, abi, avx2, None, false) == FunctionLowering::Fails(e),
        },
{
    reveal_with_fuel(positions, 7);
    let vs = f.values@;
    assert(positions(vs, OpKind::RmsNorm).len() == 0);
    assert(positions(vs, OpKind::Dequantize) =~= seq![2int, 3int]);
    assert(positions(vs, OpKind::MatMul) =~= seq![4int]);
    assert(id_at(2) == ValueId(2) && id_at(3) == ValueId(3));
    assert(two_dims(vs[0].ty@) == Ok::<(u32, u32), CodegenFault>((m, k)));
    assert(two_dims(vs[1].ty@) == Ok::<(u32, u32), CodegenFault>((k, 1)));
    assert(quant_matmul_lowering(f, abi, None, false) == q8q8_lowering(f, 0, 1, abi, None));
}

/// `r` is a region of the given code, or the given error.
pub open spec fn compiles_to(
    want: Result<Seq<u8>, CodegenFault>,
    r: Result<ExecRegion, JitError>,
) -> bool {
    match want {
        Ok(bytes) => r matches Ok(region) && region.image() == bytes && region.entry() == 0,
        Err(e) => r matches Err(JitError::Codegen(s)) && s@ == e.debug(),
    }
}

/// Builds the IR for a fused Q8_0 weight x F32 activation product and compiles
/// it:
/// ```text
///   v0 = Param(0) : tensor<q8_0, [M, K]>     # weights
///   v1 = Param(1) : tensor<f32,  [K, N]>     # activations
///   v2 = Dequantize v0 : tensor<f32, [M, K]>
///   v3 = MatMul v2, v1 : tensor<f32, [M, N]>
///   return v3
/// ```
fn compile_q8_matmul(backend: &X86_64, m: u32, k: u32, n: u32) -> (r: Result<ExecRegion, JitError>)
    requires
        q8_f32_result(backend.abi, m, k, n) is Ok ==> row_fits(k),
    ensures
        compiles_to(q8_f32_result(backend.abi, m, k, n), r),
{
    let mut params: Vec<TensorType> = Vec::new();
    params.push(matrix_type(DType::Q8_0, m, k));
    params.push(matrix_type(DType::F32, k, n));
    let mut f = Function::new("quant_matmul", params, matrix_type(DType::F32, m, n));
    let w = f.param_values[0];
    let a = f.param_values[1];
    let dq = f.push(Value { op: Op::Dequantize { x: w }, ty: matrix_type(DType::F32, m, k) });
    let prod = f.push(
        Value { op: Op::MatMul { lhs: dq, rhs: a }, ty: matrix_type(DType::F32, m, n) },
    );
    f.push(Value { op: Op::Return { value: prod }, ty: no_type() });
    proof {
        assert(is_q8_product(f, matrix(DType::Q8_0, m, k), matrix(DType::F32, k, n)));
        lemma_q8_product(f, m, k, n, backend.abi, backend.avx2);
    }
    let mut functions: Vec<Function> = Vec::new();
    functions.push(f);
    let ir = IrModule { functions };
    region_of(&ir, backend)
}

/// Builds the IR for a fused Q8_0 x Q8_0 product with one column and compiles
/// it:
/// ```text
///   v0 = Param(0) : tensor<q8_0, [M, K]>     # weights
///   v1 = Param(1) : tensor<q8_0, [K, 1]>     # activations
///   v2 = Dequantize v0 : tensor<f32, [M, K]>
///   v3 = Dequantize v1 : tensor<f32, [K, 1]>
///   v4 = MatMul v2, v3 : tensor<f32, [M, 1]>
///   return v4
/// ```
fn compile_q8q8_matmul(backend: &X86_64, m: u32, k: u32) -> (r: Result<ExecRegion, JitError>)
    requires
        q8_q8_result(backend.abi, m, k) is Ok ==> row_fits(k),
    ensures
        compiles_to(q8_q8_result(backend.abi, m, k), r),
{
    let mut params: Vec<TensorType> = Vec::new();
    params.push(matrix_type(DType::Q8_0, m, k));
    params.push(matrix_type(DType::Q8_0, k, 1));
    let mut f = Function::new("q8q8_matmul", params, matrix_type(DType::F32, m, 1));
    let w = f.param_values[0];
    let a = f.param_values[1];
    let dq_w = f.push(Value { op: Op::Dequantize { x: w }, ty: matrix_type(DType::F32, m, k) });
    let dq_a = f.push(Value { op: Op::Dequantize { x: a }, ty: matrix_type(DType::F32, k, 1) });
    let prod = f.push(
        Value { op: Op::MatMul { lhs: dq_w, rhs: dq_a }, ty: matrix_type(DType::F32, m, 1) },
    );
    f.push(Value { op: Op::Return { value: prod }, ty: no_type() });
    proof {
        assert(is_q8q8_product(f, matrix(DType::Q8_0, m, k), matrix(DType::Q8_0, k, 1)));
        lemma_q8q8_product(f, m, k, backend.abi, backend.avx2);
    }
    let mut functions: Vec<Function> = Vec::new();
    functions.push(f);
    let ir = IrModule { functions };
    region_of(&ir, backend)
}

// ---- the cache --------------------------------------------------------------------

/// The shape of a product: rows, inner dimension, columns.
pub type ShapeKey = (u32, u32, u32);

/// Regions by shape. No shape occurs twice.
#[derive(Debug)]
pub struct ShapeTable {
    keys: Vec<ShapeKey>,
    regions: Vec<ExecRegion>,
}

impl ShapeTable {
    /// The shapes that have a region.
    pub closed spec fn shapes(&self) -> Set<ShapeKey> {
        self.keys@.to_set()
    }

    /// No shape occurs twice, and every shape has a region.
    pub closed spec fn wf(&self) -> bool {
        self.keys@.no_duplicates() && self.keys@.len() == self.regions@.len()
    }

    fn empty() -> (t: Self)
        ensures
            t.wf(),
            t.shapes() == Set::<ShapeKey>::empty(),
    {
        let t = ShapeTable { keys: Vec::new(), regions: Vec::new() };
        assert(t.shapes() =~= Set::<ShapeKey>::empty());
        t
    }

    fn len(&self) -> (n: usize)
        requires
            self.wf(),
        ensures
            n == self.shapes().len(),
    {
        proof {
            self.keys@.unique_seq_to_set();
        }
        self.keys.len()
    }

    /// Where a shape stands.
    fn find(&self, key: ShapeKey) -> (r: Option<usize>)
        requires
            self.wf(),
        ensures
            match r {
                Some(i) => i < self.keys@.len() && self.keys@[i as int] == key
                    && self.shapes().contains(key),
                None => !self.shapes().contains(key),
            },
    {
        let mut i: usize = 0;
        while i < self.keys.len()
            invariant
                i <= self.keys@.len(),
                forall|j: int| 0 <= j < i ==> self.keys@[j] != key,
            decreases self.keys@.len() - i,
        {
            let k = self.keys[i];
            if k.0 == key.0 && k.1 == key.1 && k.2 == key.2 {
                assert(self.keys@[i as int] == key);
                return Some(i);
            }
            i = i + 1;
        }
        None
    }

    /// Adds the region of a new shape.
    fn add(&mut self, key: ShapeKey, region: ExecRegion) -> (i: usize)
        requires
            old(self).wf(),
            !old(self).shapes().contains(key),
        ensures
            final(self).wf(),
            final(self).shapes() == old(self).shapes().insert(key),
            final(self).keys@ == old(self).keys@.push(key),
            final(self).regions@ == old(self).regions@.push(region),
            i == old(self).keys@.len(),
    {
        let ghost keys = self.keys@;
        self.keys.push(key);
        self.regions.push(region);
        proof {
            assert forall|x: ShapeKey| self.shapes().contains(x) <==> keys.to_set().insert(
                key,
            ).contains(x) by {
                if keys.contains(x) {
                    let j = choose|j: int| 0 <= j < keys.len() && keys[j] == x;
                    assert(self.keys@[j] == x);
                }
                if x == key {
                    assert(self.keys@[keys.len() as int] == x);
                }
                if self.keys@.contains(x) {
                    let j = choose|j: int| 0 <= j < self.keys@.len() && self.keys@[j] == x;
                    if j < keys.len() {
                        assert(keys[j] == x);
                    }
                }
            }
            assert(self.shapes() =~= keys.to_set().insert(key));
            assert forall|a: int, b: int|
                0 <= a < self.keys@.len() && 0 <= b < self.keys@.len() && a
                    != b implies self.keys@[a] != self.keys@[b] by {
                if a == keys.len() {
                    assert(keys.contains(keys[b]));
                } else if b == keys.len() {
                    assert(keys.contains(keys[a]));
                }
            }
        }
        self.keys.len() - 1
    }
}

/// Kernels by `(M, K, N)`, compiled on first request: plain fp32 products,
/// fused Q8 x F32 products and fused Q8 x Q8 products.
pub struct MatmulJitCache {
    backend: X86_64,
    entries: ShapeTable,
    q8_entries: ShapeTable,
    q8q8_entries: ShapeTable,
}

/// What a [`MatmulJitCache`] holds.
#[verifier::ext_equal]
pub struct CacheView {
    pub abi: Abi,
    pub avx2: bool,
    /// The shapes of the fp32 kernels.
    pub f32_shapes: Set<ShapeKey>,
    /// The shapes of the Q8 x F32 kernels.
    pub q8_shapes: Set<ShapeKey>,
    /// The shapes of the Q8 x Q8 kernels.
    pub q8q8_shapes: Set<ShapeKey>,
}

impl CacheView {
    /// There are finitely many kernels of each kind.
    pub open spec fn finite(self) -> bool {
        &&& self.f32_shapes.finite()
        &&& self.q8_shapes.finite()
        &&& self.q8q8_shapes.finite()
    }
}

impl View for MatmulJitCache {
    type V = CacheView;

    closed spec fn view(&self) -> CacheView {
        CacheView {
            abi: self.backend.abi,
            avx2: self.backend.avx2,
            f32_shapes: self.entries.shapes(),
            q8_shapes: self.q8_entries.shapes(),
            q8q8_shapes: self.q8q8_entries.shapes(),
        }
    }
}

impl Default for MatmulJitCache {
    fn default() -> (c: Self)
        ensures
            c.wf(),
            c@.avx2,
            c@.f32_shapes == Set::<ShapeKey>::empty(),
            c@.q8_shapes == Set::<ShapeKey>::empty(),
            c@.q8q8_shapes == Set::<ShapeKey>::empty(),
    {
        MatmulJitCache::new()
    }
}

impl MatmulJitCache {
    /// What is kept for a shape is the kernel of that shape.
    pub closed spec fn wf(&self) -> bool {
        &&& self.entries.wf()
        &&& self.q8_entries.wf()
        &&& self.q8q8_entries.wf()
        &&& forall|i: int|
            0 <= i < self.entries.keys@.len() ==> {
                let k = #[trigger] self.entries.keys@[i];
                &&& self.entries.regions@[i].image() == f32_kernel(
                    self.backend.abi,
                    self.backend.avx2,
                    k.0,
                    k.1,
                    k.2,
                )
                &&& self.entries.regions@[i].entry() == 0
            }
        &&& forall|i: int|
            0 <= i < self.q8_entries.keys@.len() ==> {
                let k = #[trigger] self.q8_entries.keys@[i];
                &&& q8_f32_result(self.backend.abi, k.0, k.1, k.2) == Ok::<
                    Seq<u8>,
                    CodegenFault,
                >(self.q8_entries.regions@[i].image())
                &&& self.q8_entries.regions@[i].entry() == 0
            }
        &&& forall|i: int|
            0 <= i < self.q8q8_entries.keys@.len() ==> {
                let k = #[trigger] self.q8q8_entries.keys@[i];
                &&& q8_q8_result(self.backend.abi, k.0, k.1) == Ok::<Seq<u8>, CodegenFault>(
                    self.q8q8_entries.regions@[i].image(),
                )
                &&& self.q8q8_entries.regions@[i].entry() == 0
            }
    }

    /// There are finitely many kernels.
    pub proof fn lemma_finite(&self)
        requires
            self.wf(),
        ensures
            self@.finite(),
    {
        self.entries.keys@.unique_seq_to_set();
        self.q8_entries.keys@.unique_seq_to_set();
        self.q8q8_entries.keys@.unique_seq_to_set();
    }

    /// An empty cache for this machine.
    pub fn new() -> (c: Self)
        ensures
            c.wf(),
            c@.avx2,
            c@.f32_shapes == Set::<ShapeKey>::empty(),
            c@.q8_shapes == Set::<ShapeKey>::empty(),
            c@.q8q8_shapes == Set::<ShapeKey>::empty(),
    {
        MatmulJitCache::with_backend(X86_64::host())
    }

    /// An empty cache for the given backend.
    pub fn with_backend(backend: X86_64) -> (c: Self)
        ensures
            c.wf(),
            c@ == (CacheView {
                abi: backend.abi,
                avx2: backend.avx2,
                f32_shapes: Set::<ShapeKey>::empty(),
                q8_shapes: Set::<ShapeKey>::empty(),
                q8q8_shapes: Set::<ShapeKey>::empty(),
            }),
    {
        let c = MatmulJitCache {
            backend,
            entries: ShapeTable::empty(),
            q8_entries: ShapeTable::empty(),
            q8q8_entries: ShapeTable::empty(),
        };
        proof {
            lemma_no_shapes(c.entries);
            lemma_no_shapes(c.q8_entries);
            lemma_no_shapes(c.q8q8_entries);
        }
        c
    }

    /// Number of fp32 kernels currently cached.
    pub fn len(&self) -> (n: usize)
        requires
            self.wf(),
        ensures
            n == self@.f32_shapes.len(),
            self@.finite(),
    {
        proof {
            self.lemma_finite();
        }
        self.entries.len()
    }

    /// Whether no fp32 kernel is cached.
    pub fn is_empty(&self) -> (b: bool)
        requires
            self.wf(),
        ensures
            b == (self@.f32_shapes.len() == 0),
            self@.finite(),
    {
        proof {
            self.lemma_finite();
        }
        self.entries.len() == 0
    }

    /// Number of Q8 x F32 fused kernels currently cached.
    pub fn q8_len(&self) -> (n: usize)
        requires
            self.wf(),
        ensures
            n == self@.q8_shapes.len(),
            self@.finite(),
    {
        proof {
            self.lemma_finite();
        }
        self.q8_entries.len()
    }

    /// Number of Q8 x Q8 fused kernels currently cached.
    pub fn q8q8_len(&self) -> (n: usize)
        requires
            self.wf(),
        ensures
            n == self@.q8q8_shapes.len(),
            self@.finite(),
    {
        proof {
            self.lemma_finite();
        }
        self.q8q8_entries.len()
    }

    /// The kernel for `(M, K, N)`, compiled on first request.
    pub fn get_or_compile(&mut self, m: u32, k: u32, n: u32) -> (r: Result<&ExecRegion, JitError>)
        requires
            old(self).wf(),
        ensures
            final(self).wf(),
            final(self)@ == (CacheView {
                f32_shapes: old(self)@.f32_shapes.insert((m, k, n)),
                ..old(self)@
            }),
            r matches Ok(region) && region.image() == f32_kernel(
                old(self)@.abi,
                old(self)@.avx2,
                m,
                k,
                n,
            ) && region.entry() == 0,
    {
        let key = (m, k, n);
        match self.entries.find(key) {
            Some(i) => {
                assert(self@ =~= CacheView {
                    f32_shapes: old(self)@.f32_shapes.insert((m, k, n)),
                    ..old(self)@
                });
                Ok(&self.entries.regions[i])
            },
            None => match compile_matmul(&self.backend, m, k, n) {
                Ok(region) => {
                    let i: usize = self.entries.add(key, region);
                    Ok(&self.entries.regions[i])
                },
                Err(e) => Err(e),
            },
        }
    }

    /// The fused Q8_0 x F32 kernel of shape
    /// `(weights[M, K]: q8_0) @ (activations[K, N]: f32) -> (out[M, N]: f32)`.
    /// `K` must be a multiple of 32, and `N` is 1 (decode) or a multiple of 8
    /// (prefill).
    pub fn get_or_compile_q8(&mut self, m: u32, k: u32, n: u32) -> (r: Result<
        &ExecRegion,
        JitError,
    >)
        requires
            old(self).wf(),
            q8_f32_result(old(self)@.abi, m, k, n) is Ok ==> row_fits(k),
        ensures
            final(self).wf(),
            match q8_f32_result(old(self)@.abi, m, k, n) {
                Ok(bytes) => {
                    &&& final(self)@ == (CacheView {
                        q8_shapes: old(self)@.q8_shapes.insert((m, k, n)),
                        ..old(self)@
                    })
                    &&& r matches Ok(region) && region.image() == bytes && region.entry() == 0
                },
                Err(e) => {
                    &&& final(self)@ == old(self)@
                    &&& r matches Err(JitError::Codegen(s)) && s@ == e.debug()
                },
            },
    {
        let key = (m, k, n);
        match self.q8_entries.find(key) {
            Some(i) => {
                assert(self@ =~= CacheView {
                    q8_shapes: old(self)@.q8_shapes.insert((m, k, n)),
                    ..old(self)@
                });
                Ok(&self.q8_entries.regions[i])
            },
            None => match compile_q8_matmul(&self.backend, m, k, n) {
                Ok(region) => {
                    let i: usize = self.q8_entries.add(key, region);
                    Ok(&self.q8_entries.regions[i])
                },
                Err(e) => Err(e),
            },
        }
    }

    /// The fused Q8_0 x Q8_0 kernel of shape
    /// `(weights[M, K]: q8_0) @ (activations[K, 1]: q8_0) -> (out[M, 1]: f32)`.
    /// `K` must be a multiple of 32.
    pub fn get_or_compile_q8q8(&mut self, m: u32, k: u32) -> (r: Result<&ExecRegion, JitError>)
        requires
            old(self).wf(),
            q8_q8_result(old(self)@.abi, m, k) is Ok ==> row_fits(k),
        ensures
            final(self).wf(),
            match q8_q8_result(old(self)@.abi, m, k) {
                Ok(bytes) => {
                    &&& final(self)@ == (CacheView {
                        q8q8_shapes: old(self)@.q8q8_shapes.insert((m, k, 1)),
                        ..old(self)@
                    })
                    &&& r matches Ok(region) && region.image() == bytes && region.entry() == 0
                },
                Err(e) => {
                    &&& final(self)@ == old(self)@
                    &&& r matches Err(JitError::Codegen(s)) && s@ == e.debug()
                },
            },
    {
        let key = (m, k, 1);
        match self.q8q8_entries.find(key) {
            Some(i) => {
                assert(self@ =~= CacheView {
                    q8q8_shapes: old(self)@.q8q8_shapes.insert((m, k, 1)),
                    ..old(self)@
                });
                Ok(&self.q8q8_entries.regions[i])
            },
            None => match compile_q8q8_matmul(&self.backend, m, k) {
                Ok(region) => {
                    let i: usize = self.q8q8_entries.add(key, region);
                    Ok(&self.q8q8_entries.regions[i])
                },
                Err(e) => Err(e),
            },
        }
    }
}

proof fn lemma_no_shapes(t: ShapeTable)
    requires
        t.wf(),
        t.shapes() == Set::<ShapeKey>::empty(),
    ensures
        t.keys@.len() == 0,
{
    if t.keys@.len() > 0 {
        assert(t.keys@.contains(t.keys@[0]));
        assert(t.shapes().contains(t.keys@[0]));
    }
}

/// A second request for a shape is a hit: asking for a kernel that is there
/// leaves the number of kernels as it is, and asking for another one adds one.
pub proof fn lemma_hits_do_not_grow(shapes: Set<ShapeKey>, key: ShapeKey)
    requires
        shapes.finite(),
    ensures
        shapes.insert(key).insert(key) == shapes.insert(key),
        shapes.contains(key) ==> shapes.insert(key).len() == shapes.len(),
        !shapes.contains(key) ==> shapes.insert(key).len() == shapes.len() + 1,
{
    assert(shapes.insert(key).insert(key) =~= shapes.insert(key));
    if shapes.contains(key) {
        assert(shapes.insert(key) =~= shapes);
    }
}

} // verus!
