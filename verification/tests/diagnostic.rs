//! Rendering of diagnostics.

use lumen::dsl::{Diagnostic, Span};

#[test]
fn renders_basic() {
    let src = "fn m() -> f32 {\n    return zz;\n}\n";
    // span over `zz` (find it manually)
    let start = src.find("zz").unwrap() as u32;
    let span = Span::new(start, start + 2);
    let d = Diagnostic::error("unknown identifier `zz`", span);
    let out = d.render(src, "test.lum");
    assert!(out.contains("error: unknown identifier"));
    assert!(out.contains("test.lum:2:12"));
    assert!(out.contains("^^"));
}
