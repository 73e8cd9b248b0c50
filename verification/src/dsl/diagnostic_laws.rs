//! What a diagnostic shows of a source text.

use crate::dsl::diagnostic::{
    all_renderings, line_from, line_start, line_text, newline_at, next_line, run, DiagnosticView,
    Severity,
};
use crate::dsl::span::{byte_prefix, column_after, line_after};
use crate::text::{decimal, lemma_encode_concat};
use vstd::prelude::*;
use vstd::utf8::{encode_utf8, encode_utf8_decode_utf8};

verus! {

/// How many of the first `n` characters are line ends.
pub open spec fn line_ends(s: Seq<char>, n: int) -> nat
    decreases n,
{
    if n <= 0 {
        0
    } else {
        line_ends(s, n - 1) + if s[n - 1] == '\n' {
            1nat
        } else {
            0nat
        }
    }
}

/// The text has no line end.
pub open spec fn on_one_line(s: Seq<char>) -> bool {
    forall|i: int| 0 <= i < s.len() ==> #[trigger] s[i] != '\n'
}

/// The text is made of whole lines.
pub open spec fn whole_lines(s: Seq<char>) -> bool {
    s.len() == 0 || s.last() == '\n'
}

proof fn lemma_line_number(s: Seq<char>, t: Seq<char>, n: int)
    requires
        0 <= n <= s.len(),
        s.len() <= t.len(),
        forall|i: int| 0 <= i < n ==> #[trigger] t[i] == s[i],
    ensures
        line_ends(t, n) == line_ends(s, n),
        line_after(s.subrange(0, n)) == 1 + line_ends(s, n),
    decreases n,
{
    let p = s.subrange(0, n);
    if n > 0 {
        assert(t[n - 1] == s[n - 1]);
        lemma_line_number(s, t, n - 1);
        assert(p.drop_last() =~= s.subrange(0, n - 1));
    }
}

/// A place after whole lines and some characters of the next is on that line, one
/// column after these characters.
pub proof fn lemma_line_and_column(lines: Seq<char>, lead: Seq<char>)
    requires
        whole_lines(lines),
        on_one_line(lead),
    ensures
        line_after(lines + lead) == 1 + line_ends(lines, lines.len() as int),
        column_after(lines + lead) == 1 + lead.len(),
    decreases lead.len(),
{
    let s = lines + lead;
    if lead.len() == 0 {
        assert(s =~= lines);
        lemma_line_number(lines, lines, lines.len() as int);
        assert(lines.subrange(0, lines.len() as int) =~= lines);
    } else {
        let before = lead.drop_last();
        assert(lead[lead.len() - 1] != '\n');
        assert forall|i: int| 0 <= i < before.len() implies #[trigger] before[i] != '\n' by {
            assert(lead[i] != '\n');
        }
        lemma_line_and_column(lines, before);
        assert(s.drop_last() =~= lines + before);
    }
}

proof fn lemma_next_end(s: Seq<char>, from: int, end: int)
    requires
        0 <= from <= end <= s.len(),
        forall|i: int| from <= i < end ==> #[trigger] s[i] != '\n',
        end < s.len() ==> s[end] == '\n',
    ensures
        newline_at(s, from) == end,
    decreases end - from,
{
    if from < end {
        assert(s[from] != '\n');
        lemma_next_end(s, from + 1, end);
    }
}

/// The start of the line that holds the character before `i`.
proof fn lemma_line_begins(s: Seq<char>, i: int) -> (j: int)
    requires
        0 <= i <= s.len(),
    ensures
        0 <= j <= i,
        j == 0 || s[j - 1] == '\n',
        forall|k: int| j <= k < i ==> #[trigger] s[k] != '\n',
        line_ends(s, i) == line_ends(s, j),
    decreases i,
{
    if i == 0 || s[i - 1] == '\n' {
        i
    } else {
        lemma_line_begins(s, i - 1)
    }
}

proof fn lemma_line_starts_at(s: Seq<char>, i: int)
    requires
        0 <= i <= s.len(),
        i == 0 || s[i - 1] == '\n',
    ensures
        line_start(s, line_ends(s, i)) == i,
    decreases i,
{
    if i > 0 {
        let j = lemma_line_begins(s, i - 1);
        lemma_line_starts_at(s, j);
        lemma_next_end(s, j, i - 1);
        assert(next_line(s, j) == i);
    }
}

/// What an error with a place shows: its severity and message; the file, the line
/// and the column; and the line itself, marked below from the column on. `lines` are
/// the whole lines before the place, `lead` and `tail` what its line holds before
/// and after the place, and `rest` what comes after that line. A carriage return
/// before the line end is not shown.
pub proof fn lemma_rendering(
    d: DiagnosticView,
    lines: Seq<char>,
    lead: Seq<char>,
    tail: Seq<char>,
    rest: Seq<char>,
    file: Seq<char>,
)
    requires
        d.span is Some,
        d.span->0.start <= d.span->0.end,
        whole_lines(lines),
        on_one_line(lead),
        on_one_line(tail),
        rest.len() == 0 || rest[0] == '\n',
        d.span->0.start == encode_utf8(lines + lead).len(),
    ensures
        ({
            let number = decimal(1 + line_ends(lines, lines.len() as int));
            let gap = Seq::new(number.len(), |i: int| ' ');
            let whole = lead + tail;
            let shown = if rest.len() > 0 && whole.len() > 0 && whole.last() == '\r' {
                whole.drop_last()
            } else {
                whole
            };
            let wide = d.span->0.end - d.span->0.start;
            let marks = if wide > 0 {
                wide as nat
            } else {
                1
            };
            d.rendering(lines + lead + tail + rest, file) == (match d.severity {
                Severity::Error => "error"@,
                Severity::Warning => "warning"@,
                Severity::Note => "note"@,
            }) + ": "@ + d.message + "\n"@ + "  --> "@ + file + ":"@ + number + ":"@ + decimal(
                1 + lead.len(),
            ) + "\n"@ + gap + " |\n"@ + number + " | "@ + shown + "\n"@ + gap + " | "@ + Seq::new(
                lead.len(),
                |i: int| ' ',
            ) + Seq::new(marks, |i: int| '^') + "\n"@
        }),
{
    let source = lines + lead + tail + rest;
    let before = lines + lead;
    let span = d.span->0;
    assert(source =~= before + (tail + rest));
    lemma_encode_concat(before, tail + rest);
    assert(encode_utf8(source).subrange(0, span.start as int) =~= encode_utf8(before));
    encode_utf8_decode_utf8(before);
    assert(byte_prefix(source, span.start as int) == before);
    lemma_line_and_column(lines, lead);
    let n = lines.len() as int;
    lemma_line_number(lines, source, n);
    lemma_line_starts_at(source, n);
    let line = line_after(before);
    assert(line_start(source, (line - 1) as nat) == n);
    let whole = lead + tail;
    let end = n + whole.len();
    assert forall|i: int| n <= i < end implies #[trigger] source[i] != '\n' by {
        if i < n + lead.len() {
            assert(source[i] == lead[i - n]);
        } else {
            assert(source[i] == tail[i - n - lead.len()]);
        }
    }
    lemma_next_end(source, n, end);
    let shown = if rest.len() > 0 && whole.len() > 0 && whole.last() == '\r' {
        whole.drop_last()
    } else {
        whole
    };
    assert(line_from(source, n) =~= shown);
    assert(line_text(source, (line - 1) as nat) == shown);
    let number = decimal(line);
    assert(run(' ', number.len()) =~= Seq::new(number.len(), |i: int| ' '));
    assert(run(' ', lead.len()) =~= Seq::new(lead.len(), |i: int| ' '));
    let wide = span.end - span.start;
    let marks = if wide > 0 {
        wide as nat
    } else {
        1
    };
    assert(run('^', marks) =~= Seq::new(marks, |i: int| '^'));
}

/// What a diagnostic without a place shows: its severity and message.
pub proof fn lemma_rendering_without_place(d: DiagnosticView, source: Seq<char>, file: Seq<char>)
    requires
        d.span is None,
    ensures
        d.severity == Severity::Error ==> d.rendering(source, file) == "error"@ + ": "@ + d.message
            + "\n"@,
        d.severity == Severity::Warning ==> d.rendering(source, file) == "warning"@ + ": "@
            + d.message + "\n"@,
        d.severity == Severity::Note ==> d.rendering(source, file) == "note"@ + ": "@ + d.message
            + "\n"@,
{
}

/// Diagnostics are shown in order, each with an empty line after it.
pub proof fn lemma_renderings_in_order(
    diags: Seq<DiagnosticView>,
    d: DiagnosticView,
    source: Seq<char>,
    file: Seq<char>,
)
    ensures
        all_renderings(Seq::empty(), source, file) == Seq::<char>::empty(),
        all_renderings(diags.push(d), source, file) == all_renderings(diags, source, file)
            + d.rendering(source, file) + "\n"@,
{
    assert(diags.push(d).drop_last() =~= diags);
}

} // verus!
