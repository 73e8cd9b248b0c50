//! Per-layer key/value cache for autoregressive decoding.
//!
//! Layout: `K[i, d] = self.k[i * kv_dim + d]`. The cache grows by one token
//! per `append`. The element type is a parameter: a cache holds what it is
//! given and computes nothing.

use vstd::prelude::*;

verus! {

/// One layer's worth of K/V slots, sized for `max_seq` tokens x `kv_dim`
/// elements each.
#[derive(Debug)]
pub struct LayerKvCache<T> {
    /// Flat buffer `[max_seq, kv_dim]` row-major.
    k: Vec<T>,
    v: Vec<T>,
    kv_dim: usize,
    max_seq: usize,
    cur_len: usize,
}

/// What a [`LayerKvCache`] holds: the rows that were appended.
#[verifier::ext_equal]
pub struct LayerRows<T> {
    /// The K rows, one after the other.
    pub k: Seq<T>,
    /// The V rows, one after the other.
    pub v: Seq<T>,
    /// How many rows there are.
    pub len: nat,
    pub kv_dim: nat,
    pub max_seq: nat,
}

impl<T> View for LayerKvCache<T> {
    type V = LayerRows<T>;

    closed spec fn view(&self) -> LayerRows<T> {
        let n = (self.cur_len * self.kv_dim) as int;
        LayerRows {
            k: self.k@.subrange(0, n),
            v: self.v@.subrange(0, n),
            len: self.cur_len as nat,
            kv_dim: self.kv_dim as nat,
            max_seq: self.max_seq as nat,
        }
    }
}

impl<T> LayerRows<T> {
    /// A cache without rows.
    pub open spec fn empty(max_seq: nat, kv_dim: nat) -> Self {
        LayerRows { k: Seq::empty(), v: Seq::empty(), len: 0, kv_dim, max_seq }
    }

    /// The cache with one more row.
    pub open spec fn appended(self, k_row: Seq<T>, v_row: Seq<T>) -> Self {
        LayerRows { k: self.k + k_row, v: self.v + v_row, len: self.len + 1, ..self }
    }

    /// The K row of token `i`.
    pub open spec fn k_at(self, i: int) -> Seq<T> {
        self.k.subrange(i * self.kv_dim, (i + 1) * self.kv_dim)
    }

    /// The V row of token `i`.
    pub open spec fn v_at(self, i: int) -> Seq<T> {
        self.v.subrange(i * self.kv_dim, (i + 1) * self.kv_dim)
    }

    /// The rows have the length that the cache was made for, and fit in it.
    pub open spec fn ok(self) -> bool {
        &&& self.k.len() == self.len * self.kv_dim
        &&& self.v.len() == self.len * self.kv_dim
        &&& self.len <= self.max_seq
    }
}

impl<T: Copy + Default> LayerKvCache<T> {
    /// What every operation keeps: both buffers have room for `max_seq` rows.
    pub closed spec fn wf(&self) -> bool {
        &&& self.k@.len() == self.max_seq * self.kv_dim
        &&& self.v@.len() == self.max_seq * self.kv_dim
        &&& self.cur_len <= self.max_seq
        &&& self.max_seq * self.kv_dim <= usize::MAX
    }

    /// A cache without rows, with room for `max_seq` of them.
    pub fn new(max_seq: usize, kv_dim: usize) -> (c: Self)
        requires
            max_seq * kv_dim <= usize::MAX,
        ensures
            c.wf(),
            c@ == LayerRows::<T>::empty(max_seq as nat, kv_dim as nat),
            c@.k.len() == 0 && c@.v.len() == 0 && c@.len == 0,
            c@.kv_dim == kv_dim && c@.max_seq == max_seq,
    {
        let n: usize = max_seq * kv_dim;
        let mut k: Vec<T> = Vec::new();
        let mut v: Vec<T> = Vec::new();
        let mut i: usize = 0;
        while i < n
            invariant
                i <= n,
                k@.len() == i,
                v@.len() == i,
            decreases n - i,
        {
            k.push(T::default());
            v.push(T::default());
            i = i + 1;
        }
        proof {
            assert(0 * kv_dim == 0) by (nonlinear_arith);
        }
        let c = LayerKvCache { k, v, kv_dim, max_seq, cur_len: 0 };
        assert(c@ =~= LayerRows::<T>::empty(max_seq as nat, kv_dim as nat));
        c
    }

    /// How many rows the cache holds.
    pub fn len(&self) -> (n: usize)
        ensures
            n == self@.len,
    {
        self.cur_len
    }

    /// Whether the cache holds no rows.
    pub fn is_empty(&self) -> (b: bool)
        ensures
            b == (self@.len == 0),
    {
        self.cur_len == 0
    }

    /// Elements per row.
    pub fn kv_dim(&self) -> (n: usize)
        ensures
            n == self@.kv_dim,
    {
        self.kv_dim
    }

    /// How many rows fit.
    pub fn max_seq(&self) -> (n: usize)
        ensures
            n == self@.max_seq,
    {
        self.max_seq
    }

    /// Append one token's K and V vectors. Both rows have `kv_dim` elements,
    /// and the cache is not full.
    pub fn append(&mut self, k_row: &[T], v_row: &[T])
        requires
            old(self).wf(),
            k_row@.len() == old(self)@.kv_dim,
            v_row@.len() == old(self)@.kv_dim,
            old(self)@.len < old(self)@.max_seq,
        ensures
            final(self).wf(),
            final(self)@ == old(self)@.appended(k_row@, v_row@),
            final(self)@.k == old(self)@.k + k_row@,
            final(self)@.v == old(self)@.v + v_row@,
            final(self)@.len == old(self)@.len + 1,
            final(self)@.kv_dim == old(self)@.kv_dim,
            final(self)@.max_seq == old(self)@.max_seq,
    {
        let ghost dim = self.kv_dim as nat;
        let ghost cur = self.cur_len as nat;
        let ghost cap = self.max_seq as nat;
        proof {
            assert((cur + 1) * dim <= cap * dim && (cur + 1) * dim == cur * dim + dim)
                by (nonlinear_arith)
                requires
                    cur + 1 <= cap,
            ;
        }
        let off: usize = self.cur_len * self.kv_dim;
        let mut d: usize = 0;
        while d < self.kv_dim
            invariant
                d <= self.kv_dim,
                self.kv_dim == old(self).kv_dim,
                self.max_seq == old(self).max_seq,
                self.cur_len == old(self).cur_len,
                dim == self.kv_dim,
                cur == self.cur_len,
                off == cur * dim,
                off + dim <= self.k@.len() <= usize::MAX,
                self.k@.len() == old(self).k@.len(),
                self.v@.len() == self.k@.len(),
                k_row@.len() == dim,
                v_row@.len() == dim,
                forall|i: int| 0 <= i < off ==> self.k@[i] == old(self).k@[i],
                forall|i: int| 0 <= i < off ==> self.v@[i] == old(self).v@[i],
                forall|i: int| 0 <= i < d ==> self.k@[off + i] == k_row@[i],
                forall|i: int| 0 <= i < d ==> self.v@[off + i] == v_row@[i],
            decreases self.kv_dim - d,
        {
            self.k[off + d] = k_row[d];
            self.v[off + d] = v_row[d];
            d = d + 1;
        }
        self.cur_len = self.cur_len + 1;
        proof {
            assert(self@.k =~= old(self)@.k + k_row@);
            assert(self@.v =~= old(self)@.v + v_row@);
        }
    }

    /// The K rows that have been populated so far: `[len, kv_dim]`.
    pub fn k_filled(&self) -> (s: &[T])
        requires
            self.wf(),
        ensures
            s@ == self@.k,
    {
        proof {
            self.lemma_filled();
        }
        vstd::slice::slice_subrange(self.k.as_slice(), 0, self.cur_len * self.kv_dim)
    }

    /// The V rows that have been populated so far.
    pub fn v_filled(&self) -> (s: &[T])
        requires
            self.wf(),
        ensures
            s@ == self@.v,
    {
        proof {
            self.lemma_filled();
        }
        vstd::slice::slice_subrange(self.v.as_slice(), 0, self.cur_len * self.kv_dim)
    }

    /// Forgets the rows. The room stays.
    pub fn reset(&mut self)
        requires
            old(self).wf(),
        ensures
            final(self).wf(),
            final(self)@ == LayerRows::<T>::empty(old(self)@.max_seq, old(self)@.kv_dim),
            final(self)@.k.len() == 0 && final(self)@.v.len() == 0 && final(self)@.len == 0,
            final(self)@.kv_dim == old(self)@.kv_dim,
            final(self)@.max_seq == old(self)@.max_seq,
    {
        self.cur_len = 0;
        proof {
            let dim = self.kv_dim;
            assert(0 * dim == 0) by (nonlinear_arith);
            assert(self@ =~= LayerRows::<T>::empty(old(self)@.max_seq, old(self)@.kv_dim));
        }
    }

    proof fn lemma_filled(&self)
        requires
            self.wf(),
        ensures
            self.cur_len * self.kv_dim <= self.k@.len(),
            self.cur_len * self.kv_dim <= usize::MAX,
    {
        let c = self.cur_len;
        let m = self.max_seq;
        let d = self.kv_dim;
        assert(c * d <= m * d) by (nonlinear_arith)
            requires
                c <= m,
        ;
    }

    /// What a cache holds is whole rows, no more than fit.
    pub proof fn lemma_rows_ok(&self)
        requires
            self.wf(),
        ensures
            self@.ok(),
    {
        self.lemma_filled();
    }
}

/// What was appended is read back, and earlier rows stay: after an append the
/// last row is the new one, and every other row is the one it was.
pub proof fn lemma_append_reads_back<T>(rows: LayerRows<T>, k_row: Seq<T>, v_row: Seq<T>, i: int)
    requires
        rows.ok(),
        k_row.len() == rows.kv_dim,
        v_row.len() == rows.kv_dim,
        rows.len < rows.max_seq,
        0 <= i <= rows.len,
    ensures
        rows.appended(k_row, v_row).ok(),
        rows.appended(k_row, v_row).k_at(i) == (if i == rows.len {
            k_row
        } else {
            rows.k_at(i)
        }),
        rows.appended(k_row, v_row).v_at(i) == (if i == rows.len {
            v_row
        } else {
            rows.v_at(i)
        }),
{
    let d = rows.kv_dim as int;
    let n = rows.len as int;
    assert((n + 1) * d == n * d + d && (i + 1) * d == i * d + d) by (nonlinear_arith);
    assert(0 <= i * d <= n * d) by (nonlinear_arith)
        requires
            0 <= i <= n,
            d >= 0,
    ;
    if i < n {
        assert((i + 1) * d <= n * d) by (nonlinear_arith)
            requires
                i + 1 <= n,
                d >= 0,
        ;
    }
    let more = rows.appended(k_row, v_row);
    assert(more.k_at(i) =~= if i == n {
        k_row
    } else {
        rows.k_at(i)
    });
    assert(more.v_at(i) =~= if i == n {
        v_row
    } else {
        rows.v_at(i)
    });
}

/// One cache slot per transformer layer.
#[derive(Debug)]
pub struct KvCache<T> {
    layers: Vec<LayerKvCache<T>>,
}

impl<T> View for KvCache<T> {
    type V = Seq<LayerKvCache<T>>;

    closed spec fn view(&self) -> Seq<LayerKvCache<T>> {
        self.layers@
    }
}

impl<T: Copy + Default> KvCache<T> {
    /// Every layer's cache is well-formed.
    pub open spec fn wf(&self) -> bool {
        forall|i: int| 0 <= i < self@.len() ==> (#[trigger] self@[i]).wf()
    }

    /// `n_layers` caches without rows.
    pub fn new(n_layers: usize, max_seq: usize, kv_dim: usize) -> (c: Self)
        requires
            max_seq * kv_dim <= usize::MAX,
        ensures
            c.wf(),
            c@.len() == n_layers,
            forall|i: int|
                0 <= i < n_layers ==> (#[trigger] c@[i])@ == LayerRows::<T>::empty(
                    max_seq as nat,
                    kv_dim as nat,
                ),
    {
        let mut layers: Vec<LayerKvCache<T>> = Vec::new();
        let mut i: usize = 0;
        while i < n_layers
            invariant
                i <= n_layers,
                max_seq * kv_dim <= usize::MAX,
                layers@.len() == i,
                forall|j: int|
                    0 <= j < i ==> (#[trigger] layers@[j]).wf() && layers@[j]@ == LayerRows::<
                        T,
                    >::empty(max_seq as nat, kv_dim as nat),
            decreases n_layers - i,
        {
            layers.push(LayerKvCache::new(max_seq, kv_dim));
            i = i + 1;
        }
        KvCache { layers }
    }

    /// How many layers there are.
    pub fn n_layers(&self) -> (n: usize)
        ensures
            n == self@.len(),
    {
        self.layers.len()
    }

    /// The cache of a layer.
    pub fn layer(&self, i: usize) -> (c: &LayerKvCache<T>)
        requires
            i < self@.len(),
        ensures
            *c == self@[i as int],
    {
        &self.layers[i]
    }

    /// The cache of a layer, to be changed. The other layers stay as they are.
    pub fn layer_mut(&mut self, i: usize) -> (c: &mut LayerKvCache<T>)
        requires
            i < old(self)@.len(),
        ensures
            *c == old(self)@[i as int],
            final(self)@ == old(self)@.update(i as int, *final(c)),
    {
        &mut self.layers[i]
    }

    /// Forgets the rows of every layer.
    pub fn reset(&mut self)
        requires
            old(self).wf(),
        ensures
            final(self).wf(),
            final(self)@.len() == old(self)@.len(),
            forall|i: int|
                0 <= i < old(self)@.len() ==> (#[trigger] final(self)@[i])@ == LayerRows::<
                    T,
                >::empty(old(self)@[i]@.max_seq, old(self)@[i]@.kv_dim),
    {
        let mut i: usize = 0;
        while i < self.layers.len()
            invariant
                i <= self@.len(),
                self@.len() == old(self)@.len(),
                forall|j: int| 0 <= j < self@.len() ==> (#[trigger] self@[j]).wf(),
                forall|j: int|
                    0 <= j < i ==> (#[trigger] self@[j])@ == LayerRows::<T>::empty(
                        old(self)@[j]@.max_seq,
                        old(self)@[j]@.kv_dim,
                    ),
                forall|j: int| i <= j < self@.len() ==> self@[j] == old(self)@[j],
            decreases self@.len() - i,
        {
            self.layers[i].reset();
            i = i + 1;
        }
    }
}

/// Layers are independent: appending to one leaves every other layer as it
/// was.
pub proof fn lemma_layers_independent<T: Copy + Default>(
    before: Seq<LayerKvCache<T>>,
    i: int,
    changed: LayerKvCache<T>,
    j: int,
)
    requires
        0 <= i < before.len(),
        0 <= j < before.len(),
        i != j,
    ensures
        before.update(i, changed)[j] == before[j],
{
}

} // verus!
