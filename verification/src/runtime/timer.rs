//! Per-step time accumulator for profiling the decode path.

use crate::text::{push_repeated, push_text, to_chars};
use vstd::prelude::*;

verus! {

/// A step of the forward pass whose time is summed up.
#[derive(Copy, Clone, Debug, PartialEq, Eq, Structural)]
pub enum Bucket {
    Embed,
    AttnRms,
    QkvMatmul,
    QkvBias,
    Rope,
    KvAppend,
    Attention,
    WoMatmul,
    AttnResidual,
    FfnRms,
    GateUpMatmul,
    SiluMul,
    DownMatmul,
    FfnResidual,
    FinalRms,
    LmHeadMatmul,
}

/// The time that each step took, in nanoseconds, summed over many decoded
/// tokens.
#[derive(Clone, Debug)]
pub struct StepTimer {
    pub embed: u64,
    pub layer_attn_rms: u64,
    pub layer_qkv_matmul: u64,
    pub layer_qkv_bias: u64,
    pub layer_rope: u64,
    pub layer_kv_append: u64,
    pub layer_attention: u64,
    pub layer_wo_matmul: u64,
    pub layer_attn_residual: u64,
    pub layer_ffn_rms: u64,
    pub layer_gate_up_matmul: u64,
    pub layer_silu_mul: u64,
    pub layer_down_matmul: u64,
    pub layer_ffn_residual: u64,
    pub final_rms: u64,
    pub lm_head_matmul: u64,
}

impl Default for StepTimer {
    fn default() -> (t: Self)
        ensures
            forall|b: Bucket| #[trigger] t.time(b) == 0,
    {
        StepTimer {
            embed: 0,
            layer_attn_rms: 0,
            layer_qkv_matmul: 0,
            layer_qkv_bias: 0,
            layer_rope: 0,
            layer_kv_append: 0,
            layer_attention: 0,
            layer_wo_matmul: 0,
            layer_attn_residual: 0,
            layer_ffn_rms: 0,
            layer_gate_up_matmul: 0,
            layer_silu_mul: 0,
            layer_down_matmul: 0,
            layer_ffn_residual: 0,
            final_rms: 0,
            lm_head_matmul: 0,
        }
    }
}

/// What a [`Row`] says.
pub struct RowView {
    pub name: Seq<char>,
    pub nanos: u64,
}

/// A row of a report: what was timed, and for how many nanoseconds.
#[derive(Copy, Clone, Debug)]
pub struct Row {
    pub name: &'static str,
    pub nanos: u64,
}

impl View for Row {
    type V = RowView;

    open spec fn view(&self) -> RowView {
        RowView { name: self.name@, nanos: self.nanos }
    }
}

/// What rows say.
pub open spec fn row_views(rows: Seq<Row>) -> Seq<RowView> {
    Seq::new(rows.len(), |i: int| rows[i]@)
}

/// `x` put behind every row that took at least as long.
pub open spec fn inserted(rows: Seq<RowView>, x: RowView) -> Seq<RowView>
    decreases rows.len(),
{
    if rows.len() == 0 || rows.last().nanos >= x.nanos {
        rows.push(x)
    } else {
        inserted(rows.drop_last(), x).push(rows.last())
    }
}

/// The rows by descending time; rows that took the same time keep their order.
pub open spec fn sorted(rows: Seq<RowView>) -> Seq<RowView>
    decreases rows.len(),
{
    if rows.len() == 0 {
        Seq::empty()
    } else {
        inserted(sorted(rows.drop_last()), rows.last())
    }
}

/// Whether the times do not increase.
pub open spec fn descending(rows: Seq<RowView>) -> bool {
    forall|i: int, j: int|
        0 <= i < j < rows.len() ==> (#[trigger] rows[i]).nanos >= (#[trigger] rows[j]).nanos
}

proof fn lemma_inserted(rows: Seq<RowView>, x: RowView)
    requires
        descending(rows),
    ensures
        descending(inserted(rows, x)),
        inserted(rows, x).to_multiset() == rows.to_multiset().insert(x),
        inserted(rows, x).len() == rows.len() + 1,
        forall|b: u64|
            x.nanos >= b && (rows.len() > 0 ==> rows.last().nanos >= b) ==> #[trigger] at_least(
                inserted(rows, x),
                b,
            ),
    decreases rows.len(),
{
    broadcast use vstd::seq_lib::group_to_multiset_ensures;

    if rows.len() > 0 && rows.last().nanos < x.nanos {
        let rest = rows.drop_last();
        lemma_inserted(rest, x);
        assert(rest.push(rows.last()) =~= rows);
        let s = inserted(rest, x);
        assert(at_least(s, rows.last().nanos));
        assert(rows.to_multiset() =~= rest.to_multiset().insert(rows.last()));
        assert(inserted(rows, x).to_multiset() =~= rows.to_multiset().insert(x));
    }
}

/// Whether every row took at least so long.
spec fn at_least(rows: Seq<RowView>, b: u64) -> bool {
    forall|i: int| 0 <= i < rows.len() ==> (#[trigger] rows[i]).nanos >= b
}

/// Sorting leaves the rows in descending order, and adds and drops none.
pub proof fn lemma_sorted(rows: Seq<RowView>)
    ensures
        descending(sorted(rows)),
        sorted(rows).to_multiset() == rows.to_multiset(),
        sorted(rows).len() == rows.len(),
    decreases rows.len(),
{
    broadcast use vstd::seq_lib::group_to_multiset_ensures;

    if rows.len() > 0 {
        lemma_sorted(rows.drop_last());
        lemma_inserted(sorted(rows.drop_last()), rows.last());
        assert(rows.drop_last().push(rows.last()) =~= rows);
    } else {
        assert(rows =~= Seq::empty());
    }
}

/// Puts a row behind every row that took at least as long.
fn insert_row(rows: &mut Vec<Row>, x: Row)
    ensures
        row_views(final(rows)@) == inserted(row_views(old(rows)@), x@),
    decreases old(rows)@.len(),
{
    let n: usize = rows.len();
    let ghost views = row_views(rows@);
    if n == 0 || rows[n - 1].nanos >= x.nanos {
        rows.push(x);
        assert(row_views(rows@) =~= views.push(x@));
    } else {
        let last: Row = rows[n - 1];
        rows.pop();
        assert(row_views(rows@) =~= views.drop_last());
        insert_row(rows, x);
        let ghost mid = row_views(rows@);
        rows.push(last);
        assert(row_views(rows@) =~= mid.push(last@));
    }
}

/// `s` after as many spaces as it takes to be `width` characters wide.
pub open spec fn right_aligned(s: Seq<char>, width: nat) -> Seq<char> {
    if s.len() < width {
        Seq::new((width - s.len()) as nat, |i: int| ' ') + s
    } else {
        s
    }
}

fn push_right_aligned(out: &mut String, s: &str, width: usize)
    ensures
        final(out)@ == old(out)@ + right_aligned(s@, width as nat),
{
    let n: usize = to_chars(s).len();
    if n < width {
        push_repeated(out, ' ', width - n);
    }
    push_text(out, s);
}

/// What std shows for a duration of so many seconds and nanoseconds.
pub uninterp spec fn duration_text(secs: nat, nanos: nat) -> Seq<char>;

/// `Debug` of std's `Duration`: the text is only named, as [`duration_text`].
#[verifier::external_body]
fn duration_debug(secs: u64, nanos: u32) -> (s: String)
    requires
        nanos < 1_000_000_000,
    ensures
        s@ == duration_text(secs as nat, nanos as nat),
{
    format!("{:?}", std::time::Duration::new(secs, nanos))
}

/// What is shown for a number of nanoseconds.
pub open spec fn nanos_text(n: nat) -> Seq<char> {
    duration_text(n / 1_000_000_000, n % 1_000_000_000)
}

fn nanos_debug(n: u128) -> (s: String)
    requires
        n <= 0x1_0000_0000_0000_0000_0000,
    ensures
        s@ == nanos_text(n as nat),
{
    duration_debug((n / 1_000_000_000) as u64, (n % 1_000_000_000) as u32)
}

/// The lines of a report: the name, the time and the share of each row.
pub open spec fn report_lines(rows: Seq<RowView>, shares: Seq<Seq<char>>) -> Seq<char>
    decreases rows.len(),
{
    if rows.len() == 0 {
        Seq::empty()
    } else {
        report_lines(rows.drop_last(), shares) + report_line(
            rows.last(),
            shares[rows.len() - 1],
        )
    }
}

/// The line of a row.
pub open spec fn report_line(r: RowView, share: Seq<char>) -> Seq<char> {
    "  "@ + right_aligned(r.name, 22) + "  "@ + right_aligned(nanos_text(r.nanos as nat), 10)
        + "  "@ + right_aligned(share, 5) + "%\n"@
}

fn push_line(s: &mut String, r: &Row, share: &str)
    ensures
        final(s)@ == old(s)@ + report_line(r@, share@),
{
    let ghost start = s@;
    push_text(s, "  ");
    push_right_aligned(s, r.name, 22);
    push_text(s, "  ");
    let d = nanos_debug(r.nanos as u128);
    push_right_aligned(s, d.as_str(), 10);
    push_text(s, "  ");
    push_right_aligned(s, share, 5);
    push_text(s, "%\n");
    assert(s@ =~= start + report_line(r@, share@));
}

/// Texts as sequences of characters.
pub open spec fn share_views(shares: Seq<String>) -> Seq<Seq<char>> {
    Seq::new(shares.len(), |i: int| shares[i]@)
}

impl StepTimer {
    /// No time was counted.
    pub open spec fn unused(self) -> bool {
        forall|b: Bucket| #[trigger] self.time(b) == 0
    }

    /// A timer that has not seen any time pass.
    pub fn new() -> (t: Self)
        ensures
            t.unused(),
    {
        StepTimer::default()
    }

    /// The time of a step.
    pub open spec fn time(self, b: Bucket) -> u64 {
        match b {
            Bucket::Embed => self.embed,
            Bucket::AttnRms => self.layer_attn_rms,
            Bucket::QkvMatmul => self.layer_qkv_matmul,
            Bucket::QkvBias => self.layer_qkv_bias,
            Bucket::Rope => self.layer_rope,
            Bucket::KvAppend => self.layer_kv_append,
            Bucket::Attention => self.layer_attention,
            Bucket::WoMatmul => self.layer_wo_matmul,
            Bucket::AttnResidual => self.layer_attn_residual,
            Bucket::FfnRms => self.layer_ffn_rms,
            Bucket::GateUpMatmul => self.layer_gate_up_matmul,
            Bucket::SiluMul => self.layer_silu_mul,
            Bucket::DownMatmul => self.layer_down_matmul,
            Bucket::FfnResidual => self.layer_ffn_residual,
            Bucket::FinalRms => self.final_rms,
            Bucket::LmHeadMatmul => self.lm_head_matmul,
        }
    }

    /// The sum of all steps.
    pub open spec fn sum(self) -> nat {
        (self.embed
            + self.layer_attn_rms
            + self.layer_qkv_matmul
            + self.layer_qkv_bias
            + self.layer_rope
            + self.layer_kv_append
            + self.layer_attention
            + self.layer_wo_matmul
            + self.layer_attn_residual
            + self.layer_ffn_rms
            + self.layer_gate_up_matmul
            + self.layer_silu_mul
            + self.layer_down_matmul
            + self.layer_ffn_residual
            + self.final_rms
            + self.lm_head_matmul) as nat
    }

    /// The rows of a report, in the order of the forward pass.
    pub open spec fn unsorted(self) -> Seq<RowView> {
        seq![
            RowView { name: "embed"@, nanos: self.embed },
            RowView { name: "layer/attn_rms"@, nanos: self.layer_attn_rms },
            RowView { name: "layer/qkv_matmul"@, nanos: self.layer_qkv_matmul },
            RowView { name: "layer/qkv_bias"@, nanos: self.layer_qkv_bias },
            RowView { name: "layer/rope"@, nanos: self.layer_rope },
            RowView { name: "layer/kv_append"@, nanos: self.layer_kv_append },
            RowView { name: "layer/attention"@, nanos: self.layer_attention },
            RowView { name: "layer/wo_matmul"@, nanos: self.layer_wo_matmul },
            RowView { name: "layer/attn_residual"@, nanos: self.layer_attn_residual },
            RowView { name: "layer/ffn_rms"@, nanos: self.layer_ffn_rms },
            RowView { name: "layer/gate_up_matmul"@, nanos: self.layer_gate_up_matmul },
            RowView { name: "layer/silu_mul"@, nanos: self.layer_silu_mul },
            RowView { name: "layer/down_matmul"@, nanos: self.layer_down_matmul },
            RowView { name: "layer/ffn_residual"@, nanos: self.layer_ffn_residual },
            RowView { name: "final_rms"@, nanos: self.final_rms },
            RowView { name: "lm_head_matmul"@, nanos: self.lm_head_matmul },
        ]
    }

    /// The time of a step.
    pub fn spent(&self, b: Bucket) -> (n: u64)
        ensures
            n == self.time(b),
    {
        match b {
            Bucket::Embed => self.embed,
            Bucket::AttnRms => self.layer_attn_rms,
            Bucket::QkvMatmul => self.layer_qkv_matmul,
            Bucket::QkvBias => self.layer_qkv_bias,
            Bucket::Rope => self.layer_rope,
            Bucket::KvAppend => self.layer_kv_append,
            Bucket::Attention => self.layer_attention,
            Bucket::WoMatmul => self.layer_wo_matmul,
            Bucket::AttnResidual => self.layer_attn_residual,
            Bucket::FfnRms => self.layer_ffn_rms,
            Bucket::GateUpMatmul => self.layer_gate_up_matmul,
            Bucket::SiluMul => self.layer_silu_mul,
            Bucket::DownMatmul => self.layer_down_matmul,
            Bucket::FfnResidual => self.layer_ffn_residual,
            Bucket::FinalRms => self.final_rms,
            Bucket::LmHeadMatmul => self.lm_head_matmul,
        }
    }

    /// Adds the time that a step took.
    pub fn add(&mut self, b: Bucket, nanos: u64)
        requires
            old(self).time(b) + nanos <= u64::MAX,
        ensures
            final(self).time(b) == old(self).time(b) + nanos,
            forall|c: Bucket| c != b ==> #[trigger] final(self).time(c) == old(self).time(c),
    {
        match b {
            Bucket::Embed => {
                self.embed = self.embed + nanos;
            },
            Bucket::AttnRms => {
                self.layer_attn_rms = self.layer_attn_rms + nanos;
            },
            Bucket::QkvMatmul => {
                self.layer_qkv_matmul = self.layer_qkv_matmul + nanos;
            },
            Bucket::QkvBias => {
                self.layer_qkv_bias = self.layer_qkv_bias + nanos;
            },
            Bucket::Rope => {
                self.layer_rope = self.layer_rope + nanos;
            },
            Bucket::KvAppend => {
                self.layer_kv_append = self.layer_kv_append + nanos;
            },
            Bucket::Attention => {
                self.layer_attention = self.layer_attention + nanos;
            },
            Bucket::WoMatmul => {
                self.layer_wo_matmul = self.layer_wo_matmul + nanos;
            },
            Bucket::AttnResidual => {
                self.layer_attn_residual = self.layer_attn_residual + nanos;
            },
            Bucket::FfnRms => {
                self.layer_ffn_rms = self.layer_ffn_rms + nanos;
            },
            Bucket::GateUpMatmul => {
                self.layer_gate_up_matmul = self.layer_gate_up_matmul + nanos;
            },
            Bucket::SiluMul => {
                self.layer_silu_mul = self.layer_silu_mul + nanos;
            },
            Bucket::DownMatmul => {
                self.layer_down_matmul = self.layer_down_matmul + nanos;
            },
            Bucket::FfnResidual => {
                self.layer_ffn_residual = self.layer_ffn_residual + nanos;
            },
            Bucket::FinalRms => {
                self.final_rms = self.final_rms + nanos;
            },
            Bucket::LmHeadMatmul => {
                self.lm_head_matmul = self.lm_head_matmul + nanos;
            },
        }
    }

    /// Adds the time between two readings of a clock. It is not counted where the
    /// clock ran backwards or the sum is too large.
    pub fn count(&mut self, b: Bucket, before: u64, after: u64)
        ensures
            final(self).time(b) == with_time(old(self).time(b) as int, before, after),
            forall|c: Bucket| c != b ==> #[trigger] final(self).time(c) == old(self).time(c),
    {
        if before <= after && after - before <= u64::MAX - self.spent(b) {
            self.add(b, after - before);
        }
    }

    /// Sum of every recorded step, in nanoseconds.
    pub fn total(&self) -> (n: u128)
        ensures
            n as nat == self.sum(),
    {
        self.embed as u128
            + self.layer_attn_rms as u128
            + self.layer_qkv_matmul as u128
            + self.layer_qkv_bias as u128
            + self.layer_rope as u128
            + self.layer_kv_append as u128
            + self.layer_attention as u128
            + self.layer_wo_matmul as u128
            + self.layer_attn_residual as u128
            + self.layer_ffn_rms as u128
            + self.layer_gate_up_matmul as u128
            + self.layer_silu_mul as u128
            + self.layer_down_matmul as u128
            + self.layer_ffn_residual as u128
            + self.final_rms as u128
            + self.lm_head_matmul as u128
    }

    /// The steps, those that took longest first.
    pub fn rows(&self) -> (rows: Vec<Row>)
        ensures
            row_views(rows@) == sorted(self.unsorted()),
    {
        let mut plain: Vec<Row> = Vec::new();
        plain.push(Row { name: "embed", nanos: self.embed });
        plain.push(Row { name: "layer/attn_rms", nanos: self.layer_attn_rms });
        plain.push(Row { name: "layer/qkv_matmul", nanos: self.layer_qkv_matmul });
        plain.push(Row { name: "layer/qkv_bias", nanos: self.layer_qkv_bias });
        plain.push(Row { name: "layer/rope", nanos: self.layer_rope });
        plain.push(Row { name: "layer/kv_append", nanos: self.layer_kv_append });
        plain.push(Row { name: "layer/attention", nanos: self.layer_attention });
        plain.push(Row { name: "layer/wo_matmul", nanos: self.layer_wo_matmul });
        plain.push(Row { name: "layer/attn_residual", nanos: self.layer_attn_residual });
        plain.push(Row { name: "layer/ffn_rms", nanos: self.layer_ffn_rms });
        plain.push(Row { name: "layer/gate_up_matmul", nanos: self.layer_gate_up_matmul });
        plain.push(Row { name: "layer/silu_mul", nanos: self.layer_silu_mul });
        plain.push(Row { name: "layer/down_matmul", nanos: self.layer_down_matmul });
        plain.push(Row { name: "layer/ffn_residual", nanos: self.layer_ffn_residual });
        plain.push(Row { name: "final_rms", nanos: self.final_rms });
        plain.push(Row { name: "lm_head_matmul", nanos: self.lm_head_matmul });
        assert(row_views(plain@) =~= self.unsorted());
        let mut rows: Vec<Row> = Vec::new();
        let mut i: usize = 0;
        assert(row_views(rows@) =~= sorted(row_views(plain@).subrange(0, 0)));
        while i < plain.len()
            invariant
                i <= plain@.len(),
                row_views(rows@) == sorted(row_views(plain@).subrange(0, i as int)),
            decreases plain@.len() - i,
        {
            insert_row(&mut rows, plain[i]);
            i = i + 1;
            proof {
                let s = row_views(plain@).subrange(0, i as int);
                assert(s.drop_last() =~= row_views(plain@).subrange(0, i - 1));
                assert(s.last() == plain@[i - 1]@);
            }
        }
        assert(row_views(plain@).subrange(0, i as int) =~= row_views(plain@));
        rows
    }

    /// Breakdown, sorted by share of total descending. `shares` holds each
    /// row's share of the total in percent, as text, in the order of
    /// [`StepTimer::rows`].
    pub fn report(&self, label: &str, shares: &Vec<String>) -> (s: String)
        requires
            shares@.len() == 16,
        ensures
            s@ == label@ + " (total "@ + nanos_text(self.sum()) + "):\n"@ + report_lines(
                sorted(self.unsorted()),
                share_views(shares@),
            ),
    {
        let total: u128 = self.total();
        let rows = self.rows();
        proof {
            lemma_sorted(self.unsorted());
            assert(row_views(rows@).len() == rows@.len());
        }
        let mut s: String = label.to_string();
        push_text(&mut s, " (total ");
        let t = nanos_debug(total);
        push_text(&mut s, t.as_str());
        push_text(&mut s, "):\n");
        let ghost head = s@;
        let ghost views = row_views(rows@);
        let ghost texts = share_views(shares@);
        let mut i: usize = 0;
        assert(head + report_lines(views.subrange(0, 0), texts) =~= head);
        while i < rows.len()
            invariant
                i <= rows@.len(),
                rows@.len() == 16,
                shares@.len() == 16,
                views == row_views(rows@),
                texts == share_views(shares@),
                s@ == head + report_lines(views.subrange(0, i as int), texts),
            decreases rows@.len() - i,
        {
            let r: Row = rows[i];
            push_line(&mut s, &r, shares[i].as_str());
            i = i + 1;
            proof {
                let w = views.subrange(0, i as int);
                assert(w.drop_last() =~= views.subrange(0, i - 1));
                assert(w.last() == r@);
                assert(texts[i - 1] == shares@[i - 1]@);
                assert(s@ =~= head + report_lines(w, texts));
            }
        }
        assert(views.subrange(0, i as int) =~= views);
        s
    }
}

// ---- readings of a clock --------------------------------------------------------------

/// The time of a bucket after a time is added, or as it was where the clock ran
/// backwards or the sum is too large.
pub open spec fn with_time(t: int, before: u64, after: u64) -> int {
    if before <= after && t + (after - before) <= u64::MAX {
        t + (after - before)
    } else {
        t
    }
}

/// The time of bucket `b` after steps that are counted in `steps` and whose
/// starts and ends are in `r`, where it was `t` before them.
pub open spec fn time_after(steps: Seq<Bucket>, r: Seq<u64>, b: Bucket, t: int) -> int
    decreases steps.len(),
{
    if steps.len() == 0 {
        t
    } else {
        let n = steps.len() - 1;
        let earlier = time_after(steps.drop_last(), r.take(2 * n), b, t);
        if steps.last() == b {
            with_time(earlier, r[2 * n], r[2 * n + 1])
        } else {
            earlier
        }
    }
}

/// The readings `r` came from the clock, two for each step, and took the timer
/// from `before` to `after`.
pub open spec fn timed<C: Fn() -> u64>(
    clock: C,
    r: Seq<u64>,
    steps: Seq<Bucket>,
    before: StepTimer,
    after: StepTimer,
) -> bool {
    &&& r.len() == 2 * steps.len()
    &&& forall|i: int| 0 <= i < r.len() ==> call_ensures(clock, (), #[trigger] r[i])
    &&& forall|b: Bucket| #[trigger]
        after.time(b) == time_after(steps, r, b, before.time(b) as int)
}

/// A timer that had counted nothing was taken to `timer` by steps.
pub open spec fn timed_anew<C: Fn() -> u64>(
    clock: C,
    steps: Seq<Bucket>,
    timer: StepTimer,
) -> bool {
    exists|t: StepTimer, r: Seq<u64>| t.unused() && #[trigger] timed(clock, r, steps, t, timer)
}

proof fn lemma_time_after(
    first: Seq<Bucket>,
    second: Seq<Bucket>,
    r: Seq<u64>,
    q: Seq<u64>,
    b: Bucket,
    t: int,
)
    requires
        r.len() == 2 * first.len(),
        q.len() == 2 * second.len(),
    ensures
        time_after(first + second, r + q, b, t) == time_after(
            second,
            q,
            b,
            time_after(first, r, b, t),
        ),
    decreases second.len(),
{
    if second.len() == 0 {
        assert(first + second =~= first);
        assert(r + q =~= r);
    } else {
        let n = second.len() - 1;
        let m = first.len() + n;
        lemma_time_after(first, second.drop_last(), r, q.take(2 * n), b, t);
        assert((first + second).drop_last() =~= first + second.drop_last());
        assert((r + q).take(2 * m) =~= r + q.take(2 * n));
        assert((r + q)[2 * m] == q[2 * n]);
        assert((r + q)[2 * m + 1] == q[2 * n + 1]);
    }
}

/// Without steps nothing is counted.
pub proof fn lemma_timed_nothing<C: Fn() -> u64>(clock: C, timer: StepTimer)
    ensures
        timed(clock, seq![], seq![], timer, timer),
{
}

/// A single step is counted once.
pub proof fn lemma_timed_once<C: Fn() -> u64>(
    clock: C,
    start: u64,
    end: u64,
    b: Bucket,
    before: StepTimer,
    after: StepTimer,
)
    requires
        call_ensures(clock, (), start),
        call_ensures(clock, (), end),
        after.time(b) == with_time(before.time(b) as int, start, end),
        forall|c: Bucket| c != b ==> #[trigger] after.time(c) == before.time(c),
    ensures
        timed(clock, seq![start, end], seq![b], before, after),
{
    let r = seq![start, end];
    assert forall|c: Bucket| #[trigger]
        after.time(c) == time_after(seq![b], r, c, before.time(c) as int) by {
        assert(seq![b].drop_last() =~= seq![]);
        assert(time_after(seq![b].drop_last(), r.take(0), c, before.time(c) as int)
            == before.time(c));
    }
}

/// What is counted one after the other is counted together.
pub proof fn lemma_timed_after<C: Fn() -> u64>(
    clock: C,
    r: Seq<u64>,
    q: Seq<u64>,
    first: Seq<Bucket>,
    second: Seq<Bucket>,
    before: StepTimer,
    between: StepTimer,
    after: StepTimer,
)
    requires
        timed(clock, r, first, before, between),
        timed(clock, q, second, between, after),
    ensures
        timed(clock, r + q, first + second, before, after),
{
    let all = r + q;
    assert forall|i: int| 0 <= i < all.len() implies call_ensures(clock, (), #[trigger] all[i]) by {
        if i < r.len() {
            assert(all[i] == r[i]);
        } else {
            assert(all[i] == q[i - r.len()]);
        }
    }
    assert forall|b: Bucket| #[trigger]
        after.time(b) == time_after(first + second, all, b, before.time(b) as int) by {
        lemma_time_after(first, second, r, q, b, before.time(b) as int);
        assert(between.time(b) == time_after(first, r, b, before.time(b) as int));
    }
}

} // verus!
