//! What a timer's report says of each part of the work.

use crate::runtime::timer::{
    duration_text, lemma_sorted, nanos_text, report_lines, right_aligned, sorted, Bucket, RowView,
    StepTimer,
};
use vstd::prelude::*;

verus! {

/// The name that a part of the work is reported under.
pub open spec fn part_name(b: Bucket) -> Seq<char> {
    match b {
        Bucket::Embed => "embed"@,
        Bucket::AttnRms => "layer/attn_rms"@,
        Bucket::QkvMatmul => "layer/qkv_matmul"@,
        Bucket::QkvBias => "layer/qkv_bias"@,
        Bucket::Rope => "layer/rope"@,
        Bucket::KvAppend => "layer/kv_append"@,
        Bucket::Attention => "layer/attention"@,
        Bucket::WoMatmul => "layer/wo_matmul"@,
        Bucket::AttnResidual => "layer/attn_residual"@,
        Bucket::FfnRms => "layer/ffn_rms"@,
        Bucket::GateUpMatmul => "layer/gate_up_matmul"@,
        Bucket::SiluMul => "layer/silu_mul"@,
        Bucket::DownMatmul => "layer/down_matmul"@,
        Bucket::FfnResidual => "layer/ffn_residual"@,
        Bucket::FinalRms => "final_rms"@,
        Bucket::LmHeadMatmul => "lm_head_matmul"@,
    }
}

/// The place of a part in the list before it is sorted.
spec fn part_place(b: Bucket) -> int {
    match b {
        Bucket::Embed => 0,
        Bucket::AttnRms => 1,
        Bucket::QkvMatmul => 2,
        Bucket::QkvBias => 3,
        Bucket::Rope => 4,
        Bucket::KvAppend => 5,
        Bucket::Attention => 6,
        Bucket::WoMatmul => 7,
        Bucket::AttnResidual => 8,
        Bucket::FfnRms => 9,
        Bucket::GateUpMatmul => 10,
        Bucket::SiluMul => 11,
        Bucket::DownMatmul => 12,
        Bucket::FfnResidual => 13,
        Bucket::FinalRms => 14,
        Bucket::LmHeadMatmul => 15,
    }
}

/// Every part of the work has a row of the report, under its name and with its time.
/// There are as many rows as parts.
pub proof fn lemma_every_part_reported(t: StepTimer, b: Bucket)
    ensures
        sorted(t.unsorted()).len() == 16,
        sorted(t.unsorted()).contains(RowView { name: part_name(b), nanos: t.time(b) }),
{
    let rows = t.unsorted();
    let r = RowView { name: part_name(b), nanos: t.time(b) };
    lemma_sorted(rows);
    assert(rows[part_place(b)] == r);
    assert(rows.contains(r));
    rows.to_multiset_ensures();
    sorted(rows).to_multiset_ensures();
    assert(rows.to_multiset().count(r) > 0);
}

/// The total is the time of all the parts.
pub proof fn lemma_total_of_parts(t: StepTimer)
    ensures
        t.sum() == t.time(Bucket::Embed) + t.time(Bucket::AttnRms) + t.time(Bucket::QkvMatmul)
            + t.time(Bucket::QkvBias) + t.time(Bucket::Rope) + t.time(Bucket::KvAppend) + t.time(
            Bucket::Attention,
        ) + t.time(Bucket::WoMatmul) + t.time(Bucket::AttnResidual) + t.time(Bucket::FfnRms)
            + t.time(Bucket::GateUpMatmul) + t.time(Bucket::SiluMul) + t.time(Bucket::DownMatmul)
            + t.time(Bucket::FfnResidual) + t.time(Bucket::FinalRms) + t.time(Bucket::LmHeadMatmul),
{
}

/// A text at the right end of a field: after spaces up to the width, or as it is
/// where it is wider.
pub proof fn lemma_right_aligned(s: Seq<char>, width: nat)
    ensures
        right_aligned(s, width).len() == (if s.len() < width {
            width
        } else {
            s.len()
        }),
        right_aligned(s, width).skip(right_aligned(s, width).len() - s.len()) == s,
        forall|i: int|
            0 <= i < right_aligned(s, width).len() - s.len() ==> #[trigger] right_aligned(s, width)[i]
                == ' ',
{
    assert(right_aligned(s, width).skip(right_aligned(s, width).len() - s.len()) =~= s);
}

/// A time is shown as its whole seconds and the nanoseconds beside them.
pub proof fn lemma_time_shown(secs: nat, nanos: nat)
    requires
        nanos < 1_000_000_000,
    ensures
        nanos_text(secs * 1_000_000_000 + nanos) == duration_text(secs, nanos),
{
}

/// The rows are reported in order, one to a line: the name in a field of 22, the
/// time in one of 10, and the share in one of 5.
pub proof fn lemma_reported_in_order(rows: Seq<RowView>, shares: Seq<Seq<char>>, r: RowView)
    requires
        rows.len() < shares.len(),
    ensures
        report_lines(Seq::empty(), shares) == Seq::<char>::empty(),
        report_lines(rows.push(r), shares) == report_lines(rows, shares) + ("  "@ + right_aligned(
            r.name,
            22,
        ) + "  "@ + right_aligned(nanos_text(r.nanos as nat), 10) + "  "@ + right_aligned(
            shares[rows.len() as int],
            5,
        ) + "%\n"@),
{
    assert(rows.push(r).drop_last() =~= rows);
}

} // verus!
