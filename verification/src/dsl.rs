//! Lumen DSL: source text to typed syntax tree.
//!
//! Pipeline: source text, [`lexer::Lexer`], [`parser::Parser`], [`ast::Module`],
//! [`typeck::TypeChecker`].

pub mod ast;
pub mod diagnostic;
pub mod diagnostic_laws;
pub mod lexer;
pub mod lexer_laws;
pub mod parser;
pub mod parser_laws;
pub mod span;
pub mod span_laws;
pub mod typeck;
pub mod typeck_laws;

pub use ast::Module;
pub use diagnostic::{render_all, Diagnostic};
pub use parser::Parser;
pub use span::Span;
pub use typeck::TypeChecker;

use ast::FunctionView;
use diagnostic::{diagnostics, DiagnosticView};
use parser::parse_module;
use typeck::check_module;
use vstd::prelude::*;
use vstd::string::StringSliceAdditionalSpecFns;

verus! {

/// The functions of a source text that parses and type-checks, or what is
/// wrong with it.
pub open spec fn compiled(source: Seq<char>) -> Result<Seq<FunctionView>, Seq<DiagnosticView>> {
    match parse_module(source) {
        Err(errors) => Err(errors),
        Ok(functions) => if check_module(functions).len() > 0 {
            Err(check_module(functions))
        } else {
            Ok(functions)
        },
    }
}

/// Source text of at most 4 GiB to a type-checked module, collecting
/// diagnostics.
pub fn compile(source: &str) -> (r: Result<Module, Vec<Diagnostic>>)
    requires
        source.spec_bytes().len() <= u32::MAX,
    ensures
        match compiled(source@) {
            Ok(functions) => r matches Ok(m) && m@ == functions,
            Err(errors) => r matches Err(e) && diagnostics(e@) == errors,
        },
{
    match Parser::parse(source) {
        Err(errors) => Err(errors),
        Ok(module) => match TypeChecker::check(&module) {
            Err(errors) => {
                assert(diagnostics(errors@).len() > 0);
                Err(errors)
            },
            Ok(()) => Ok(module),
        },
    }
}

} // verus!
