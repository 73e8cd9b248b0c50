//! From source text to IR: parsing, type checking, lowering, verification and
//! printing.

use lumen::codegen::backend::{Backend, CodegenOpts};
use lumen::codegen::x86_64::X86_64;
use lumen::dsl::ast::{
    BinOp, Block, Dim as AstDim, DimKind, Expr, ExprKind, Function as AstFunction, Ident, Item,
    Module, Param, ScalarType, Shape as AstShape, Stmt, StmtKind, Type, TypeKind,
};
use lumen::dsl::{compile, render_all, Diagnostic, Parser, Span, TypeChecker};
use lumen::ir::pass::{Pass, PassManager};
use lumen::ir::{
    lower, print_function, print_module, verify_module, Block as IrBlock, DType, Dim,
    Function, IrModule, LowerError, Op, Shape, TensorType, Value, ValueId, VerifyError,
};

const MATMUL: &str = r#"
            fn matmul(
                a: tensor<f32, [64, 128]>,
                b: tensor<f32, [128, 32]>,
            ) -> tensor<f32, [64, 32]> {
                return a @ b;
            }
        "#;

fn t(dtype: DType, dims: &[u32]) -> TensorType {
    TensorType { dtype, shape: Shape(dims.iter().map(|d| Dim::Static(*d)).collect()) }
}

fn only(src: &str) -> AstFunction {
    let mut m = Parser::parse(src).expect("parse");
    assert_eq!(m.items.len(), 1);
    match m.items.pop().unwrap() {
        Item::Function(f) => f,
    }
}

/// An expression with all its operators in parentheses.
fn show(e: &Expr) -> String {
    match &e.kind {
        ExprKind::Ident(n) => n.clone(),
        ExprKind::IntLit(v) => format!("{}", v),
        ExprKind::FloatLit(s) => s.clone(),
        ExprKind::Unary { expr, .. } => format!("(-{})", show(expr)),
        ExprKind::BinOp { op, lhs, rhs } => {
            format!("({} {} {})", show(lhs), op.symbol(), show(rhs))
        }
        ExprKind::Call { callee, args } => {
            let list: Vec<String> = args.iter().map(show).collect();
            format!("{}({})", callee.name, list.join(", "))
        }
    }
}

fn parsed(expr: &str) -> String {
    let f = only(&format!("fn f() -> f32 {{ return {}; }}", expr));
    match &f.body.stmts[0].kind {
        StmtKind::Return(e) => show(e),
        _ => panic!("no return"),
    }
}

fn first_error(errs: Vec<Diagnostic>) -> (String, Option<Span>) {
    let d = errs.into_iter().next().expect("an error");
    (d.message, d.span)
}

fn parse_error(src: &str) -> (String, Option<Span>) {
    match Parser::parse(src) {
        Ok(_) => panic!("parsed"),
        Err(errs) => first_error(errs),
    }
}

fn type_error(src: &str) -> String {
    let m = Parser::parse(src).expect("parse");
    match TypeChecker::check(&m) {
        Ok(()) => panic!("well-typed"),
        Err(errs) => first_error(errs).0,
    }
}

// ----- parser ----------------------------------------------------------------

#[test]
fn operators_bind_as_usual() {
    assert_eq!(parsed("a + b * c"), "(a + (b * c))");
    assert_eq!(parsed("a - b - c"), "((a - b) - c)");
    assert_eq!(parsed("(a - b) / -c"), "((a - b) / (-c))");
    assert_eq!(parsed("f(a, 1 + 2.5, g())"), "f(a, (1 + 2.5), g())");
}

#[test]
fn a_function_has_its_parts() {
    let f = only(MATMUL);
    assert_eq!(f.name.name, "matmul");
    assert_eq!(f.params.len(), 2);
    assert_eq!(f.params[1].name.name, "b");
    match &f.ret.kind {
        TypeKind::Tensor { elem, shape } => {
            assert_eq!(*elem, ScalarType::F32);
            let dims: Vec<DimKind> = shape.dims.iter().map(|d| d.kind).collect();
            assert_eq!(dims, vec![DimKind::Static(64), DimKind::Static(32)]);
        }
        TypeKind::Scalar(_) => panic!("scalar"),
    }
    assert_eq!(f.name.span.slice(MATMUL), "matmul");
    assert_eq!(f.params[0].ty.span.slice(MATMUL), "tensor<f32, [64, 128]>");
}

#[test]
fn statements_and_several_functions() {
    let m = Parser::parse("fn f(x: f32) -> f32 { let y = x; y; return y; } fn g() -> i32 {}")
        .expect("parse");
    assert_eq!(m.items.len(), 2);
    let Item::Function(f) = &m.items[0];
    assert!(matches!(&f.body.stmts[0].kind, StmtKind::Let { name, .. } if name.name == "y"));
    assert!(matches!(&f.body.stmts[1].kind, StmtKind::Expr(_)));
    assert!(matches!(&f.body.stmts[2].kind, StmtKind::Return(_)));
    assert!(Parser::parse("").expect("parse").items.is_empty());
}

#[test]
fn syntax_errors_point_at_the_token() {
    let (message, span) = parse_error("fn f() -> f32 { return 1 }");
    assert_eq!(message, "expected `;`");
    assert_eq!(span, Some(Span::new(25, 26)));
    assert_eq!(parse_error("let").0, "expected `fn`");
    assert_eq!(parse_error("fn f() f32 {}").0, "expected `->`");
    assert_eq!(parse_error("fn f() -> { }").0, "expected a type");
    assert_eq!(parse_error("fn f(x f32) -> f32 {}").0, "expected `:`");
    assert_eq!(parse_error("fn f() -> f32 { return ; }").0, "expected an expression");
    assert_eq!(parse_error("fn f() -> tensor<f32, [a]> {}").0, "expected a dimension");
}

// ----- type checker ----------------------------------------------------------

#[test]
fn the_example_type_checks() {
    let m = Parser::parse(MATMUL).expect("parse");
    assert!(TypeChecker::check(&m).is_ok());
    assert_eq!(compile(MATMUL).expect("compile").items.len(), 1);
}

#[test]
fn a_wrong_inner_dimension_is_a_typed_error_at_its_span() {
    let src = MATMUL.replace("[64, 128]", "[64, 127]");
    let (message, span) = match compile(&src) {
        Ok(_) => panic!("well-typed"),
        Err(errs) => first_error(errs),
    };
    assert_eq!(message, "`@` inner dimension mismatch: 127 vs 128");
    assert_eq!(span.unwrap().slice(&src), "a @ b");
}

#[test]
fn type_errors() {
    assert_eq!(type_error("fn f() -> f32 { return x; }"), "unknown identifier `x`");
    assert_eq!(type_error("fn f() -> f32 { return g(); }"), "unknown function `g`");
    assert_eq!(
        type_error("fn f(a: f32) -> f32 { return f(); }"),
        "`f` takes 1 arguments, found 0"
    );
    assert_eq!(
        type_error("fn f(a: f32) -> f32 { return f(1); }"),
        "argument type mismatch: expected f32, found i32"
    );
    assert_eq!(
        type_error("fn f(a: f32) -> i32 { return a; }"),
        "return type mismatch: expected i32, found f32"
    );
    assert_eq!(
        type_error("fn f(a: tensor<f16, [2, 3]>, b: f16) -> f16 { return a + b; }"),
        "type mismatch in `+`: tensor<f16, [2, 3]> vs f16"
    );
    assert_eq!(
        type_error("fn f(a: tensor<f16, [2]>) -> f16 { return a @ a; }"),
        "`@` requires rank-2 tensors, found tensor<f16, [2]> and tensor<f16, [2]>"
    );
    assert_eq!(
        type_error(
            "fn f(a: tensor<q4_0, [2, 2]>, b: tensor<q8_0, [2, 2]>) -> f16 { return a @ b; }"
        ),
        "`@` element type mismatch: q4_0 vs q8_0"
    );
}

#[test]
fn every_function_is_checked() {
    let m = Parser::parse("fn f() -> f32 { return x; } fn g() -> f32 { return 1.0; } fn h() -> f32 { return y; }")
        .expect("parse");
    let errs = TypeChecker::check(&m).unwrap_err();
    assert_eq!(errs.len(), 2);
    assert_eq!(errs[1].message, "unknown identifier `y`");
}

#[test]
fn a_let_shadows() {
    let src = "fn f(a: f32) -> i32 { let a = 1; let b = -a * 2; return b; }";
    assert!(compile(src).is_ok());
}

#[test]
fn errors_render_with_their_line() {
    let src = "fn f() -> f32 {\n    return x;\n}\n";
    let errs = match compile(src) {
        Ok(_) => panic!("well-typed"),
        Err(e) => e,
    };
    assert_eq!(
        render_all(&errs, src, "f.lum"),
        "error: unknown identifier `x`\n  --> f.lum:2:12\n  |\n2 |     return x;\n  |            ^\n\n"
    );
}

#[test]
fn every_error_can_be_shown() {
    for src in [
        "",
        "fn",
        "fn f(",
        "fn f() -> f32 { return 1.0 }",
        "fn f() -> f32 { return #; }",
        "fn f() -> f32 { return \u{D55C}; }",
        "fn f() -> f32 { return 99999999999999999999; }",
        "fn f(a: tensor<f32, [2, 3]>) -> f32 { return a @ a; }",
        "fn f(a: f32) -> f32 { return f(a, a); }\nfn g() -> f32 {}\n",
    ] {
        if let Err(errs) = compile(src) {
            let shown = render_all(&errs, src, "f.lum");
            assert_eq!(shown.matches("error: ").count(), errs.len(), "{}", shown);
            assert_eq!(shown.matches("  --> f.lum:").count(), errs.len(), "{}", shown);
        }
    }
}

// ----- lowering --------------------------------------------------------------

fn lower_error(src: &str) -> String {
    let m = Parser::parse(src).expect("parse");
    match lower(&m) {
        Ok(_) => panic!("lowered"),
        Err(e) => e.message(),
    }
}

#[test]
fn lowering_keeps_the_order_of_evaluation() {
    let m = Parser::parse(
        "fn f(a: tensor<f32, [2, 3]>, b: tensor<f32, [3, 4]>, c: tensor<f32, [2, 4]>) -> tensor<f32, [2, 4]> { let p = a @ b; return p * c + p; }",
    )
    .expect("parse");
    let ir = lower(&m).expect("lower");
    let f = &ir.functions[0];
    assert_eq!(f.name, "f");
    assert_eq!(f.params.len(), 3);
    assert_eq!(f.values.len(), 7);
    let id = ValueId;
    assert!(matches!(f.values[3].op, Op::MatMul { lhs, rhs } if lhs == id(0) && rhs == id(1)));
    assert_eq!(f.values[3].ty, t(DType::F32, &[2, 4]));
    assert!(matches!(f.values[4].op, Op::Mul { lhs, rhs } if lhs == id(3) && rhs == id(2)));
    assert!(matches!(f.values[5].op, Op::Add { lhs, rhs } if lhs == id(4) && rhs == id(3)));
    assert!(matches!(f.values[6].op, Op::Return { value } if value == id(5)));
    assert_eq!(f.blocks.len(), 1);
    assert_eq!(f.blocks[0].values, (0..7).map(ValueId).collect::<Vec<_>>());
    assert!(verify_module(&ir).is_ok());
}

#[test]
fn lowering_errors() {
    assert_eq!(lower_error("fn f() -> f32 { return x; }"), "unknown identifier `x`");
    assert_eq!(lower_error("fn f() -> i32 { return 1; }"), "cannot lower an integer literal");
    assert_eq!(lower_error("fn f() -> f32 { return 1.0; }"), "cannot lower a float literal");
    assert_eq!(lower_error("fn f(a: f32) -> f32 { return -a; }"), "cannot lower unary `-`");
    assert_eq!(lower_error("fn f(a: f32) -> f32 { return a - a; }"), "cannot lower operator `-`");
    assert_eq!(lower_error("fn f(a: f32) -> f32 { return f(a); }"), "cannot lower a call to `f`");
    assert_eq!(
        lower_error("fn f(a: tensor<f32, [4294967296]>) -> f32 { return a; }"),
        "dimension 4294967296 does not fit in 32 bits"
    );
    assert_eq!(lower_error("fn f(a: f32) -> f32 { return a @ a; }"), "`@` requires rank-2 tensors");
}

#[test]
fn a_dynamic_dimension_cannot_be_lowered() {
    let span = Span::new(0, 0);
    let ident = |name: &str| Ident { name: name.to_string(), span };
    let ty = Type {
        kind: TypeKind::Tensor {
            elem: ScalarType::F32,
            shape: AstShape { dims: vec![AstDim { kind: DimKind::Dynamic, span }], span },
        },
        span,
    };
    let module = Module {
        items: vec![Item::Function(AstFunction {
            name: ident("f"),
            params: vec![Param { name: ident("a"), ty: ty.clone(), span }],
            ret: ty,
            body: Block {
                stmts: vec![Stmt {
                    kind: StmtKind::Return(Expr {
                        kind: ExprKind::BinOp {
                            op: BinOp::Add,
                            lhs: Box::new(Expr { kind: ExprKind::Ident("a".to_string()), span }),
                            rhs: Box::new(Expr { kind: ExprKind::Ident("a".to_string()), span }),
                        },
                        span,
                    }),
                    span,
                }],
                span,
            },
            span,
        })],
    };
    assert!(TypeChecker::check(&module).is_ok());
    let err = lower(&module).unwrap_err();
    assert!(matches!(err, LowerError::DynamicDim));
    assert_eq!(err.message(), "cannot lower a dynamic dimension");
}

// ----- verifier --------------------------------------------------------------

#[test]
fn verifies_matmul() {
    let module = Parser::parse(MATMUL).unwrap();
    let ir = lower(&module).unwrap();
    verify_module(&ir).expect("verify");
}

#[test]
fn nothing_may_follow_the_return() {
    let src = "fn f(a: f32) -> f32 { return a; let b = a + a; }";
    let ir = lower(&compile(src).expect("compile")).expect("lower");
    let errs = verify_module(&ir).unwrap_err();
    assert_eq!(errs.len(), 1);
    assert!(matches!(&errs[0], VerifyError::NoReturn(n) if n == "f"));
}

#[test]
fn what_type_checks_and_lowers_has_no_faults() {
    let src = "fn f(a: tensor<f32, [2, 3]>, b: tensor<f32, [3, 2]>) -> tensor<f32, [2, 2]> { let c = a @ b; let d = c * c; return d + c; }\nfn g(x: f32) -> f32 { return x + x; }\n";
    let module = compile(src).expect("compile");
    let ir = lower(&module).expect("lower");
    assert_eq!(ir.functions.len(), 2);
    assert!(verify_module(&ir).is_ok());
}

fn faults(f: Function) -> Vec<String> {
    match verify_module(&IrModule { functions: vec![f] }) {
        Ok(()) => vec![],
        Err(errs) => errs.iter().map(|e| e.message()).collect(),
    }
}

fn ret(f: &mut Function, value: ValueId) {
    f.push(Value { op: Op::Return { value }, ty: t(DType::F32, &[]) });
}

#[test]
fn the_verifier_names_each_fault() {
    let v = t(DType::F32, &[4]);
    let m = t(DType::F32, &[4, 4]);

    let mut f = Function::new("f", vec![v.clone()], v.clone());
    assert_eq!(faults(f.clone()), vec!["function `f` has no terminator (return)"]);
    ret(&mut f, ValueId(0));
    assert!(faults(f.clone()).is_empty());
    ret(&mut f, ValueId(0));
    assert_eq!(faults(f), vec!["function `f` has multiple terminators"]);

    // A body ends with its return.
    let mut f = Function::new("f", vec![v.clone()], v.clone());
    ret(&mut f, ValueId(0));
    f.push(Value { op: Op::Silu { x: ValueId(0) }, ty: v.clone() });
    assert_eq!(faults(f), vec!["function `f` has no terminator (return)"]);

    let mut f = Function::new("f", vec![v.clone()], v.clone());
    ret(&mut f, ValueId(9));
    assert_eq!(faults(f), vec!["function `f`: undefined value %9"]);

    let mut f = Function::new("f", vec![v.clone()], v.clone());
    f.push(Value { op: Op::Silu { x: ValueId(2) }, ty: v.clone() });
    f.push(Value { op: Op::Silu { x: ValueId(0) }, ty: v.clone() });
    ret(&mut f, ValueId(2));
    assert_eq!(faults(f), vec!["function `f`: value %2 used before defined"]);

    let mut f = Function::new("f", vec![v.clone(), m.clone()], m.clone());
    let x = f.push(Value { op: Op::MatMul { lhs: ValueId(0), rhs: ValueId(1) }, ty: m.clone() });
    ret(&mut f, x);
    assert_eq!(faults(f), vec!["function `f`: matmul %2 requires rank-2 tensors"]);

    let q = t(DType::Q8_0, &[3, 4]);
    let mut f = Function::new("f", vec![m.clone(), q], m.clone());
    let x = f.push(Value { op: Op::MatMul { lhs: ValueId(0), rhs: ValueId(1) }, ty: m.clone() });
    ret(&mut f, x);
    assert_eq!(
        faults(f),
        vec![
            "function `f`: matmul %2 dtype mismatch (F32 vs Q8_0)",
            "function `f`: matmul %2 inner dim mismatch (4 vs 3)",
        ]
    );

    let mut f = Function::new("f", vec![v.clone(), m.clone()], v.clone());
    let x = f.push(Value { op: Op::Add { lhs: ValueId(0), rhs: ValueId(1) }, ty: v.clone() });
    ret(&mut f, x);
    let IrModule { functions } = IrModule { functions: vec![f] };
    let errs = verify_module(&IrModule { functions }).unwrap_err();
    assert!(matches!(&errs[0], VerifyError::BinTypeMismatch(n, 2, a, b) if n == "f" && *a == v && *b == m));

    let mut f = Function::new("f", vec![v.clone()], m.clone());
    ret(&mut f, ValueId(0));
    let errs = verify_module(&IrModule { functions: vec![f] }).unwrap_err();
    assert!(matches!(&errs[0], VerifyError::ReturnTypeMismatch(_, a, b) if *a == m && *b == v));
}

// ----- printer ---------------------------------------------------------------

#[test]
fn prints_matmul_function() {
    let a_ty = t(DType::F32, &[64, 128]);
    let b_ty = t(DType::F32, &[128, 32]);
    let c_ty = t(DType::F32, &[64, 32]);
    let mut f = Function::new("matmul", vec![a_ty, b_ty], c_ty.clone());
    let a = f.param_values[0];
    let b = f.param_values[1];
    let c = f.push(Value { op: Op::MatMul { lhs: a, rhs: b }, ty: c_ty });
    f.push(Value {
        op: Op::Return { value: c },
        ty: TensorType { dtype: DType::F32, shape: Shape(vec![]) },
    });

    let mut out = String::new();
    print_function(&mut out, &f);
    assert!(out.contains("fn @matmul"));
    assert!(out.contains("matmul %0, %1"));
    assert!(out.contains("return %2"));
}

#[test]
fn constants_are_printed_in_decimal() {
    let v = t(DType::F32, &[4]);
    let mut f = Function::new("n", vec![v.clone(), v.clone()], v.clone());
    let (eps, base) = (1e-5f32.to_bits(), 500000.0f32.to_bits());
    f.push(Value { op: Op::RmsNorm { x: ValueId(0), weight: ValueId(1), eps }, ty: v.clone() });
    f.push(Value { op: Op::Rope { x: ValueId(2), positions: ValueId(1), base }, ty: v });
    let text = print_module(&IrModule { functions: vec![f] });
    assert!(text.contains("%2 = rms_norm %0, %1, eps=0.00001\n"), "{}", text);
    assert!(text.contains("%3 = rope %2, %1, base=500000\n"), "{}", text);
}

#[test]
fn weights_are_shown_in_quotes() {
    let op = Op::LoadWeight { name: "a\"b\n".to_string() };
    assert_eq!(op.debug_text(), "LoadWeight { name: \"a\\\"b\\n\" }");
}

#[test]
fn unsupported_operations_are_shown_with_their_constants() {
    let v = t(DType::F32, &[4]);
    let base = 10000.0f32.to_bits();
    let mut f = Function::new("f", vec![v.clone(), v.clone()], v.clone());
    f.push(Value { op: Op::Rope { x: ValueId(0), positions: ValueId(1), base }, ty: v });
    ret(&mut f, ValueId(2));
    let ir = IrModule { functions: vec![f] };
    let err = X86_64::scalar_only().lower(&ir, &CodegenOpts::default()).err().expect("no kernel");
    assert_eq!(
        err.message(),
        "unsupported op: x86_64 Phase 2.B: op Rope { x: ValueId(0), positions: ValueId(1), base: 10000.0 } not supported"
    );
}

// ----- passes ----------------------------------------------------------------

struct Rename(&'static str);

impl Pass for Rename {
    fn result(&self, m: IrModule) -> IrModule {
        m
    }

    fn name(&self) -> &'static str {
        "rename"
    }

    fn run(&self, module: &mut IrModule) {
        for f in &mut module.functions {
            f.name.push_str(self.0);
        }
    }
}

#[test]
fn passes_run_in_order() {
    let mut pm = PassManager::default();
    pm.add(Box::new(Rename("1")));
    pm.add(Box::new(Rename("2")));
    let v = t(DType::F32, &[]);
    let mut m = IrModule { functions: vec![Function::new("f", vec![], v)] };
    pm.run(&mut m);
    assert_eq!(m.functions[0].name, "f12");
    assert!(IrBlock::default().values.is_empty());
}
