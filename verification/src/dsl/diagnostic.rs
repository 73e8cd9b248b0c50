//! Compiler diagnostics (errors, warnings, notes) and pretty-printer.

use crate::dsl::span::{byte_prefix, column_after, line_after, Span};
use crate::text::{
    decimal, push_chars, push_decimal, push_repeated, push_text, to_chars,
};
use vstd::prelude::*;
use vstd::string::StringSliceAdditionalSpecFns;
use vstd::utf8::is_char_boundary;

verus! {

/// How serious a diagnostic is.
#[derive(Copy, Clone, Debug, PartialEq, Eq, Structural)]
pub enum Severity {
    Error,
    Warning,
    Note,
}

impl Severity {
    /// The word that a message starts with.
    pub open spec fn word(self) -> Seq<char> {
        match self {
            Severity::Error => "error"@,
            Severity::Warning => "warning"@,
            Severity::Note => "note"@,
        }
    }

    /// The word that a message starts with.
    pub fn text(self) -> (s: &'static str)
        ensures
            s@ == self.word(),
    {
        match self {
            Severity::Error => "error",
            Severity::Warning => "warning",
            Severity::Note => "note",
        }
    }
}

/// A message about the source, with the place it is about.
#[derive(Clone, Debug)]
pub struct Diagnostic {
    pub severity: Severity,
    pub message: String,
    pub span: Option<Span>,
}

/// What a [`Diagnostic`] says.
pub struct DiagnosticView {
    pub severity: Severity,
    pub message: Seq<char>,
    pub span: Option<Span>,
}

impl View for Diagnostic {
    type V = DiagnosticView;

    open spec fn view(&self) -> DiagnosticView {
        DiagnosticView { severity: self.severity, message: self.message@, span: self.span }
    }
}

/// An error at a place in the source.
pub open spec fn error_at(message: Seq<char>, span: Span) -> DiagnosticView {
    DiagnosticView { severity: Severity::Error, message, span: Some(span) }
}

/// The diagnostics of a list, as views.
pub open spec fn diagnostics(list: Seq<Diagnostic>) -> Seq<DiagnosticView> {
    list.map_values(|d: Diagnostic| d@)
}

/// The position of the first newline at or after `from`, or the end of the
/// text.
pub open spec fn newline_at(s: Seq<char>, from: int) -> int
    decreases s.len() - from,
{
    if from >= s.len() {
        s.len() as int
    } else if s[from] == '\n' {
        from
    } else {
        newline_at(s, from + 1)
    }
}

/// The line that starts at `from`: up to its newline, without a carriage
/// return right before that newline.
pub open spec fn line_from(s: Seq<char>, from: int) -> Seq<char> {
    let end = newline_at(s, from);
    if end < s.len() && end > from && s[end - 1] == '\r' {
        s.subrange(from, end - 1)
    } else {
        s.subrange(from, end)
    }
}

/// Where the line after the one that starts at `from` starts.
pub open spec fn next_line(s: Seq<char>, from: int) -> int {
    let end = newline_at(s, from);
    if end < s.len() {
        end + 1
    } else {
        end
    }
}

/// Where the line with the given 0-indexed number starts; the end of the text
/// where there is none.
pub open spec fn line_start(s: Seq<char>, n: nat) -> int
    decreases n,
{
    if n == 0 {
        0
    } else {
        next_line(s, line_start(s, (n - 1) as nat))
    }
}

/// The line with the given 0-indexed number; empty where there is none.
pub open spec fn line_text(s: Seq<char>, n: nat) -> Seq<char> {
    line_from(s, line_start(s, n))
}

/// A run of one character.
pub open spec fn run(c: char, n: nat) -> Seq<char> {
    Seq::new(n, |i: int| c)
}

/// The span can be shown: its start is a character boundary of the source, and
/// it does not end before it starts.
pub open spec fn renderable(source: &str, span: Option<Span>) -> bool {
    span matches Some(s) ==> {
        &&& s.start <= s.end
        &&& s.start <= source.spec_bytes().len()
        &&& is_char_boundary(source.spec_bytes(), s.start as int)
        &&& s.start < u32::MAX
    }
}

impl DiagnosticView {
    /// The message, the position, the source line and an underline below the
    /// span.
    pub open spec fn rendering(self, source: Seq<char>, file_name: Seq<char>) -> Seq<char> {
        let head = self.severity.word() + ": "@ + self.message + "\n"@;
        match self.span {
            None => head,
            Some(span) => {
                let before = byte_prefix(source, span.start as int);
                let line = line_after(before);
                let col = column_after(before);
                let gutter = run(' ', decimal(line).len());
                let width = if span.end > span.start {
                    (span.end - span.start) as nat
                } else {
                    1
                };
                head + "  --> "@ + file_name + ":"@ + decimal(line) + ":"@ + decimal(col) + "\n"@
                    + gutter + " |\n"@ + decimal(line) + " | "@ + line_text(
                    source,
                    (line - 1) as nat,
                ) + "\n"@ + gutter + " | "@ + run(' ', (col - 1) as nat) + run('^', width) + "\n"@
            },
        }
    }
}

fn find_newline(chars: &Vec<char>, from: usize) -> (end: usize)
    requires
        from <= chars@.len(),
    ensures
        from <= end <= chars@.len(),
        end as int == newline_at(chars@, from as int),
{
    let mut i: usize = from;
    while i < chars.len() && chars[i] != '\n'
        invariant
            from <= i <= chars@.len(),
            newline_at(chars@, from as int) == newline_at(chars@, i as int),
        decreases chars@.len() - i,
    {
        i = i + 1;
    }
    i
}

/// Appends the line with the given 0-indexed number.
fn push_nth_line(out: &mut String, chars: &Vec<char>, n: u32)
    ensures
        final(out)@ == old(out)@ + line_text(chars@, n as nat),
{
    let mut from: usize = 0;
    let mut k: u32 = 0;
    while k < n
        invariant
            k <= n,
            from <= chars@.len(),
            from as int == line_start(chars@, k as nat),
        decreases n - k,
    {
        let end = find_newline(chars, from);
        from = if end < chars.len() {
            end + 1
        } else {
            end
        };
        k = k + 1;
    }
    let end = find_newline(chars, from);
    let stop: usize = if end < chars.len() && end > from && chars[end - 1] == '\r' {
        end - 1
    } else {
        end
    };
    push_chars(out, chars, from, stop);
}

impl Diagnostic {
    /// An error at a place in the source.
    pub fn error(message: &str, span: Span) -> (d: Self)
        ensures
            d@ == error_at(message@, span),
    {
        Self { severity: Severity::Error, message: message.to_string(), span: Some(span) }
    }

    /// An error without a place: something that does not exist yet.
    pub fn todo(message: &str) -> (d: Self)
        ensures
            d@ == (DiagnosticView {
                severity: Severity::Error,
                message: "TODO: "@ + message@,
                span: None,
            }),
    {
        let mut m: String = "TODO: ".to_string();
        push_text(&mut m, message);
        Self { severity: Severity::Error, message: m, span: None }
    }

    /// Codespan-style multi-line rendering for terminals. `file_name` shows in
    /// the banner. `source` must be the same text the span was extracted from.
    pub fn render(&self, source: &str, file_name: &str) -> (out: String)
        requires
            renderable(source, self.span),
        ensures
            out@ == self@.rendering(source@, file_name@),
    {
        let mut out: String = self.severity.text().to_string();
        push_text(&mut out, ": ");
        push_text(&mut out, self.message.as_str());
        push_text(&mut out, "\n");
        let span = match self.span {
            None => {
                return out;
            },
            Some(s) => s,
        };
        let (line, col) = span.line_col(source);
        let chars = to_chars(source);
        let mut num: String = String::new();
        push_decimal(&mut num, line as u64);
        assert(num@ =~= decimal(line as nat));
        let width: usize = to_chars(num.as_str()).len();
        push_text(&mut out, "  --> ");
        push_text(&mut out, file_name);
        push_text(&mut out, ":");
        push_decimal(&mut out, line as u64);
        push_text(&mut out, ":");
        push_decimal(&mut out, col as u64);
        push_text(&mut out, "\n");
        push_repeated(&mut out, ' ', width);
        push_text(&mut out, " |\n");
        push_decimal(&mut out, line as u64);
        push_text(&mut out, " | ");
        proof {
            lemma_line_positive(byte_prefix(source@, span.start as int));
        }
        push_nth_line(&mut out, &chars, line - 1);
        push_text(&mut out, "\n");
        push_repeated(&mut out, ' ', width);
        push_text(&mut out, " | ");
        push_repeated(&mut out, ' ', (col - 1) as usize);
        let marks: u32 = if span.end > span.start {
            span.len()
        } else {
            1
        };
        push_repeated(&mut out, '^', marks as usize);
        push_text(&mut out, "\n");
        out
    }
}

proof fn lemma_line_positive(s: Seq<char>)
    ensures
        line_after(s) >= 1,
        column_after(s) >= 1,
    decreases s.len(),
{
    if s.len() > 0 {
        lemma_line_positive(s.drop_last());
    }
}

/// The renderings, each followed by an empty line.
pub open spec fn all_renderings(
    diags: Seq<DiagnosticView>,
    source: Seq<char>,
    file_name: Seq<char>,
) -> Seq<char>
    decreases diags.len(),
{
    if diags.len() == 0 {
        Seq::empty()
    } else {
        all_renderings(diags.drop_last(), source, file_name) + diags.last().rendering(
            source,
            file_name,
        ) + "\n"@
    }
}

/// Renders a batch of diagnostics, separated by blank lines.
pub fn render_all(diags: &[Diagnostic], source: &str, file_name: &str) -> (out: String)
    requires
        forall|i: int| 0 <= i < diags@.len() ==> renderable(source, (#[trigger] diags@[i]).span),
    ensures
        out@ == all_renderings(diagnostics(diags@), source@, file_name@),
{
    let mut out: String = String::new();
    let mut i: usize = 0;
    while i < diags.len()
        invariant
            i <= diags@.len(),
            forall|j: int|
                0 <= j < diags@.len() ==> renderable(source, (#[trigger] diags@[j]).span),
            out@ == all_renderings(
                diagnostics(diags@.subrange(0, i as int)),
                source@,
                file_name@,
            ),
        decreases diags@.len() - i,
    {
        let r = diags[i].render(source, file_name);
        push_text(&mut out, r.as_str());
        push_text(&mut out, "\n");
        i = i + 1;
        proof {
            let s = diagnostics(diags@.subrange(0, i as int));
            assert(s.drop_last() =~= diagnostics(diags@.subrange(0, i - 1)));
            assert(s.last() == diags@[i - 1]@);
        }
    }
    assert(diags@.subrange(0, i as int) =~= diags@);
    out
}

} // verus!
