//! Kernel dispatch: which path a matrix product takes, and how its rows are
//! split among the workers of a pool.

use vstd::prelude::*;

verus! {

/// Picks a cached kernel for an operation, or has one compiled. It holds
/// nothing yet.
#[derive(Debug)]
pub struct Dispatcher;

impl Dispatcher {
    pub fn new() -> (d: Self)
        ensures
            d == Dispatcher,
    {
        Dispatcher
    }
}

impl Default for Dispatcher {
    fn default() -> (d: Self)
        ensures
            d == Dispatcher,
    {
        Dispatcher::new()
    }
}

/// Minimum total Q8 block work (rows times blocks per row) for a product to be
/// split among threads. Below this, the cost of waking them outweighs the
/// saved work.
pub const MULTI_THREAD_WORK_THRESHOLD: usize = 100_000;

/// The longest inner dimension, in blocks of 32, at which the integer
/// dot-product kernel wins over the fp32 one.
pub const VNNI_MAX_BLOCKS: usize = 64;

/// Whether a product with the inner dimension `d_in` takes the integer
/// dot-product kernel: the CPU has one, and the inner dimension is short.
pub fn use_vnni_for_matmul(has_vnni: bool, d_in: usize) -> (b: bool)
    ensures
        b == (has_vnni && d_in / 32 <= 64),
{
    has_vnni && d_in / 32 <= VNNI_MAX_BLOCKS
}

/// How the rows of a product are split.
#[derive(Copy, Clone, Debug, PartialEq, Eq, Structural)]
pub enum RowSplit {
    /// One kernel does all rows.
    Serial,
    /// `n_chunks` chunks of `chunk_rows` rows, the last of which has
    /// `last_rows`.
    Parallel { chunk_rows: usize, n_chunks: usize, last_rows: usize },
}

/// `a / b` rounded up.
pub open spec fn ceil_div(a: nat, b: nat) -> nat {
    (a + b - 1) as nat / b
}

fn div_up(a: usize, b: usize) -> (r: usize)
    requires
        b > 0,
    ensures
        r == ceil_div(a as nat, b as nat),
        r <= a,
{
    let q: usize = a / b;
    let ghost x = a as int;
    let ghost y = b as int;
    proof {
        vstd::arithmetic::div_mod::lemma_fundamental_div_mod(x, y);
        let r = x % y;
        assert(0 <= r < y && x == q * y + r) by (nonlinear_arith)
            requires
                y > 0,
                x == y * (x / y) + x % y,
                q == x / y,
                r == x % y,
        ;
        if r == 0 {
            assert(x + y - 1 == q * y + (y - 1)) by (nonlinear_arith)
                requires
                    x == q * y + 0,
            ;
            vstd::arithmetic::div_mod::lemma_fundamental_div_mod_converse(
                x + y - 1,
                y,
                q as int,
                y - 1,
            );
            assert(q <= x) by (nonlinear_arith)
                requires
                    x == q * y,
                    y >= 1,
                    q >= 0,
            ;
        } else {
            assert(x + y - 1 == (q + 1) * y + (r - 1)) by (nonlinear_arith)
                requires
                    x == q * y + r,
            ;
            vstd::arithmetic::div_mod::lemma_fundamental_div_mod_converse(
                x + y - 1,
                y,
                q + 1,
                r - 1,
            );
            assert(q + 1 <= x) by (nonlinear_arith)
                requires
                    x == q * y + r,
                    y >= 1,
                    q >= 0,
                    r >= 1,
            ;
        }
    }
    if a % b == 0 {
        q
    } else {
        q + 1
    }
}

/// How `d_out` rows of `d_in` elements are split among `n_threads` workers.
pub open spec fn row_split(d_in: nat, d_out: nat, n_threads: nat) -> RowSplit {
    if d_out * (d_in / 32) < 100_000 || n_threads <= 1 {
        RowSplit::Serial
    } else {
        let chunk_rows = ceil_div(d_out, n_threads);
        let n_chunks = ceil_div(d_out, chunk_rows);
        RowSplit::Parallel {
            chunk_rows: chunk_rows as usize,
            n_chunks: n_chunks as usize,
            last_rows: (d_out - (n_chunks - 1) * chunk_rows) as usize,
        }
    }
}

/// How `d_out` rows of `d_in` elements are split among `n_threads` workers.
pub fn split_rows(d_in: usize, d_out: usize, n_threads: usize) -> (s: RowSplit)
    requires
        d_out * (d_in / 32) <= usize::MAX,
    ensures
        s == row_split(d_in as nat, d_out as nat, n_threads as nat),
{
    let work: usize = d_out * (d_in / 32);
    if work < MULTI_THREAD_WORK_THRESHOLD || n_threads <= 1 {
        return RowSplit::Serial;
    }
    proof {
        if d_out == 0 {
            let b = d_in / 32;
            assert(0 * b == 0) by (nonlinear_arith);
        }
    }
    let chunk_rows: usize = div_up(d_out, n_threads);
    proof {
        lemma_ceil_div(d_out as nat, n_threads as nat);
    }
    let n_chunks: usize = div_up(d_out, chunk_rows);
    proof {
        lemma_ceil_div(d_out as nat, chunk_rows as nat);
    }
    let last_rows: usize = d_out - (n_chunks - 1) * chunk_rows;
    RowSplit::Parallel { chunk_rows, n_chunks, last_rows }
}

/// What a rounded-up quotient is.
proof fn lemma_ceil_div(a: nat, b: nat)
    requires
        a > 0,
        b > 0,
    ensures
        ceil_div(a, b) >= 1,
        (ceil_div(a, b) - 1) * b < a <= ceil_div(a, b) * b,
        0 <= (ceil_div(a, b) - 1) * b,
{
    let x = (a + b - 1) as int;
    let y = b as int;
    let q = x / y;
    let r = x % y;
    vstd::arithmetic::div_mod::lemma_fundamental_div_mod(x, y);
    assert(x == q * y + r && 0 <= r < y) by (nonlinear_arith)
        requires
            y > 0,
            x == y * (x / y) + x % y,
            q == x / y,
            r == x % y,
    ;
    assert(q >= 1) by (nonlinear_arith)
        requires
            x == q * y + r,
            r < y,
            x >= y,
            y > 0,
    ;
    assert((q - 1) * y == q * y - y) by (nonlinear_arith);
    assert(0 <= (q - 1) * y) by (nonlinear_arith)
        requires
            q >= 1,
            y > 0,
    ;
}

/// The first row of chunk `i`, and how many rows it has.
pub open spec fn chunk_rows_of(d_out: nat, chunk_rows: nat, i: nat) -> (nat, nat) {
    let start = i * chunk_rows;
    (
        start,
        if d_out - start < chunk_rows {
            (d_out - start) as nat
        } else {
            chunk_rows
        },
    )
}

/// The first row of chunk `i`, and how many rows it has.
pub fn chunk(d_out: usize, chunk_rows: usize, i: usize) -> (r: (usize, usize))
    requires
        i * chunk_rows <= d_out,
    ensures
        (r.0 as nat, r.1 as nat) == chunk_rows_of(d_out as nat, chunk_rows as nat, i as nat),
{
    let start: usize = i * chunk_rows;
    let left: usize = d_out - start;
    if left < chunk_rows {
        (start, left)
    } else {
        (start, chunk_rows)
    }
}

/// The chunks of a split cover every row exactly once: row `row` is in chunk
/// `row / chunk_rows`, and in no other.
pub proof fn lemma_chunks_partition(d_in: nat, d_out: nat, n_threads: nat, row: nat, i: nat)
    requires
        d_out <= usize::MAX,
        row < d_out,
        row_split(d_in, d_out, n_threads) is Parallel,
    ensures
        ({
            let s = row_split(d_in, d_out, n_threads);
            let c = s->chunk_rows as nat;
            let n = s->n_chunks as nat;
            let (start, rows) = chunk_rows_of(d_out, c, i);
            &&& c > 0
            &&& row / c < n <= n_threads
            &&& i < n ==> start < d_out && start + rows <= d_out && rows > 0
            &&& i < n ==> rows == (if i == n - 1 {
                s->last_rows as nat
            } else {
                c
            })
            &&& (i < n && start <= row < start + rows) <==> i == row / c
        }),
{
    lemma_ceil_div(d_out, n_threads);
    let c = ceil_div(d_out, n_threads);
    lemma_ceil_div(d_out, c);
    let n = ceil_div(d_out, c);
    // neither exceeds the number of rows
    assert(c <= d_out) by (nonlinear_arith)
        requires
            (c - 1) * n_threads < d_out,
            n_threads >= 1,
            c >= 1,
    ;
    assert(n <= d_out) by (nonlinear_arith)
        requires
            (n - 1) * c < d_out,
            c >= 1,
            n >= 1,
    ;
    assert(n <= n_threads) by (nonlinear_arith)
        requires
            (n - 1) * c < d_out,
            d_out <= c * n_threads,
            c >= 1,
    ;
    let q = row / c;
    let x = row as int;
    let y = c as int;
    vstd::arithmetic::div_mod::lemma_fundamental_div_mod(x, y);
    let r = x % y;
    assert(x == q * y + r && 0 <= r < y) by (nonlinear_arith)
        requires
            y > 0,
            x == y * (x / y) + x % y,
            q == x / y,
            r == x % y,
    ;
    assert(q < n) by (nonlinear_arith)
        requires
            q * c + r < d_out,
            d_out <= n * c,
            r >= 0,
            c > 0,
    ;
    let start = i * c;
    if i < n {
        assert(start <= (n - 1) * c) by (nonlinear_arith)
            requires
                i <= n - 1,
                start == i * c,
        ;
        if i < n - 1 {
            assert(start + c <= (n - 1) * c) by (nonlinear_arith)
                requires
                    i + 1 <= n - 1,
                    start == i * c,
            ;
        } else {
            assert((n - 1) * c + c == n * c) by (nonlinear_arith);
        }
    }
    if i == q {
        assert(start <= row < start + c);
    } else if i < q {
        assert(start + c <= row) by (nonlinear_arith)
            requires
                i + 1 <= q,
                start == i * c,
                row == q * c + r,
                r >= 0,
        ;
    } else {
        assert(row < start) by (nonlinear_arith)
            requires
                q + 1 <= i,
                start == i * c,
                row == q * c + r,
                r < c,
        ;
    }
}

/// The bytes of a row of Q8_0 weights: one block of 34 bytes per 32 elements.
pub fn q8_row_bytes(d_in: usize) -> (n: usize)
    requires
        d_in / 32 * 34 <= usize::MAX,
    ensures
        n == d_in / 32 * 34,
{
    d_in / 32 * 34
}

} // verus!
