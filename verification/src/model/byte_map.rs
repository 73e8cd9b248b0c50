//! A map from byte strings to values, as a table of buckets.

use vstd::prelude::*;

verus! {

/// Modulus of the hash, a prime below `2^32`.
const HASH_MODULUS: u64 = 4_294_967_291;

/// Polynomial hash of a byte string.
pub open spec fn hash_of(key: Seq<u8>) -> nat
    decreases key.len(),
{
    if key.len() == 0 {
        7
    } else {
        (hash_of(key.drop_last()) * 257 + key.last() as nat + 1) % 4_294_967_291
    }
}

/// The value of a key in a bucket.
spec fn bucket_value<V>(bucket: Seq<(Vec<u8>, V)>, key: Seq<u8>) -> Option<V>
    decreases bucket.len(),
{
    if bucket.len() == 0 {
        None
    } else if bucket.last().0@ == key {
        Some(bucket.last().1)
    } else {
        bucket_value(bucket.drop_last(), key)
    }
}

/// No key stands twice in a bucket.
spec fn distinct<V>(bucket: Seq<(Vec<u8>, V)>) -> bool {
    forall|i: int, j: int|
        0 <= i < j < bucket.len() ==> (#[trigger] bucket[i]).0@ != (#[trigger] bucket[j]).0@
}

proof fn lemma_drop_distinct<V>(bucket: Seq<(Vec<u8>, V)>)
    requires
        distinct(bucket),
        bucket.len() > 0,
    ensures
        distinct(bucket.drop_last()),
{
    assert forall|i: int, j: int| 0 <= i < j < bucket.drop_last().len() implies (
    #[trigger] bucket.drop_last()[i]).0@ != (#[trigger] bucket.drop_last()[j]).0@ by {
        assert(bucket[i].0@ != bucket[j].0@);
    }
}

proof fn lemma_bucket_absent<V>(bucket: Seq<(Vec<u8>, V)>, key: Seq<u8>)
    requires
        forall|i: int| 0 <= i < bucket.len() ==> (#[trigger] bucket[i]).0@ != key,
    ensures
        bucket_value(bucket, key) is None,
    decreases bucket.len(),
{
    if bucket.len() > 0 {
        assert(bucket[bucket.len() - 1].0@ != key);
        assert forall|i: int| 0 <= i < bucket.drop_last().len() implies (
        #[trigger] bucket.drop_last()[i]).0@ != key by {
            assert(bucket[i].0@ != key);
        }
        lemma_bucket_absent(bucket.drop_last(), key);
    }
}

proof fn lemma_bucket_at<V>(bucket: Seq<(Vec<u8>, V)>, i: int)
    requires
        distinct(bucket),
        0 <= i < bucket.len(),
    ensures
        bucket_value(bucket, bucket[i].0@) == Some(bucket[i].1),
    decreases bucket.len(),
{
    if i < bucket.len() - 1 {
        assert(bucket[i].0@ != bucket[bucket.len() - 1].0@);
        lemma_drop_distinct(bucket);
        lemma_bucket_at(bucket.drop_last(), i);
    }
}

proof fn lemma_bucket_update<V>(bucket: Seq<(Vec<u8>, V)>, i: int, e: (Vec<u8>, V), key: Seq<u8>)
    requires
        distinct(bucket),
        0 <= i < bucket.len(),
        bucket[i].0@ == e.0@,
    ensures
        distinct(bucket.update(i, e)),
        bucket_value(bucket.update(i, e), key) == (if key == e.0@ {
            Some(e.1)
        } else {
            bucket_value(bucket, key)
        }),
    decreases bucket.len(),
{
    let new = bucket.update(i, e);
    assert forall|a: int, b: int| 0 <= a < b < new.len() implies (#[trigger] new[a]).0@ != (
    #[trigger] new[b]).0@ by {
        assert(bucket[a].0@ != bucket[b].0@);
    }
    if key == e.0@ {
        lemma_bucket_at(new, i);
    } else if i < bucket.len() - 1 {
        lemma_drop_distinct(bucket);
        assert(new.drop_last() =~= bucket.drop_last().update(i, e));
        lemma_bucket_update(bucket.drop_last(), i, e, key);
    } else {
        assert(new.drop_last() =~= bucket.drop_last());
    }
}

/// A map from byte strings to values.
#[derive(Debug)]
pub struct ByteMap<V> {
    buckets: Vec<Vec<(Vec<u8>, V)>>,
}

fn same_bytes(a: &Vec<u8>, b: &[u8]) -> (r: bool)
    ensures
        r == (a@ == b@),
{
    if a.len() != b.len() {
        return false;
    }
    let mut i: usize = 0;
    while i < b.len()
        invariant
            i <= b@.len(),
            a@.len() == b@.len(),
            forall|j: int| 0 <= j < i ==> a@[j] == b@[j],
        decreases b@.len() - i,
    {
        if a[i] != b[i] {
            return false;
        }
        i = i + 1;
    }
    assert(a@ =~= b@);
    true
}

fn hash_bytes(key: &[u8]) -> (h: u64)
    ensures
        h as nat == hash_of(key@),
        h < HASH_MODULUS,
{
    let mut h: u64 = 7;
    let mut i: usize = 0;
    while i < key.len()
        invariant
            i <= key@.len(),
            h as nat == hash_of(key@.subrange(0, i as int)),
            h < HASH_MODULUS,
        decreases key@.len() - i,
    {
        h = (h * 257 + key[i] as u64 + 1) % HASH_MODULUS;
        i = i + 1;
        proof {
            let s = key@.subrange(0, i as int);
            assert(s.drop_last() =~= key@.subrange(0, i - 1));
        }
    }
    assert(key@.subrange(0, i as int) =~= key@);
    h
}

impl<V> ByteMap<V> {
    /// There is a bucket, and no key stands twice in one.
    pub closed spec fn wf(&self) -> bool {
        &&& self.buckets@.len() > 0
        &&& forall|b: int| 0 <= b < self.buckets@.len() ==> distinct((#[trigger] self.buckets@[b])@)
    }

    spec fn bucket_of(&self, key: Seq<u8>) -> int {
        (hash_of(key) % self.buckets@.len()) as int
    }

    /// The value of a key.
    pub closed spec fn value(&self, key: Seq<u8>) -> Option<V> {
        bucket_value(self.buckets@[self.bucket_of(key)]@, key)
    }

    /// An empty map with room for about `capacity` keys.
    pub fn with_capacity(capacity: usize) -> (m: Self)
        ensures
            m.wf(),
            forall|k: Seq<u8>| #[trigger] m.value(k) is None,
    {
        let n: usize = if capacity == 0 {
            1
        } else {
            capacity
        };
        let mut buckets: Vec<Vec<(Vec<u8>, V)>> = Vec::new();
        while buckets.len() < n
            invariant
                buckets@.len() <= n,
                forall|b: int| 0 <= b < buckets@.len() ==> (#[trigger] buckets@[b])@.len() == 0,
            decreases n - buckets@.len(),
        {
            buckets.push(Vec::new());
        }
        let m = ByteMap { buckets };
        proof {
            assert forall|k: Seq<u8>| #[trigger] m.value(k) is None by {
                let b = m.bucket_of(k);
                lemma_bucket_range(k, n as nat);
                assert(m.buckets@[b]@.len() == 0);
            }
        }
        m
    }

    fn slot(&self, key: &[u8]) -> (b: usize)
        requires
            self.wf(),
        ensures
            b < self.buckets@.len(),
            b as int == self.bucket_of(key@),
    {
        let n: u64 = self.buckets.len() as u64;
        let h: u64 = hash_bytes(key);
        proof {
            lemma_bucket_range(key@, n as nat);
        }
        (h % n) as usize
    }

    fn position(&self, b: usize, key: &[u8]) -> (r: Option<usize>)
        requires
            b < self.buckets@.len(),
        ensures
            match r {
                Some(i) => i < self.buckets@[b as int]@.len() && self.buckets@[b as int]@[i as int].0@
                    == key@,
                None => forall|i: int|
                    0 <= i < self.buckets@[b as int]@.len() ==> (
                    #[trigger] self.buckets@[b as int]@[i]).0@ != key@,
            },
    {
        let bucket = &self.buckets[b];
        let mut i: usize = 0;
        while i < bucket.len()
            invariant
                i <= bucket@.len(),
                b < self.buckets@.len(),
                bucket@ == self.buckets@[b as int]@,
                forall|j: int| 0 <= j < i ==> (#[trigger] bucket@[j]).0@ != key@,
            decreases bucket@.len() - i,
        {
            if same_bytes(&bucket[i].0, key) {
                return Some(i);
            }
            i = i + 1;
        }
        None
    }

    /// The value of a key.
    pub fn get(&self, key: &[u8]) -> (r: Option<&V>)
        requires
            self.wf(),
        ensures
            match self.value(key@) {
                Some(v) => r == Some(&v),
                None => r is None,
            },
    {
        let b = self.slot(key);
        match self.position(b, key) {
            Some(i) => {
                proof {
                    assert(distinct(self.buckets@[b as int]@));
                    lemma_bucket_at(self.buckets@[b as int]@, i as int);
                }
                Some(&self.buckets[b][i].1)
            },
            None => {
                proof {
                    lemma_bucket_absent(self.buckets@[b as int]@, key@);
                }
                None
            },
        }
    }

    /// Sets the value of a key; the other keys keep theirs.
    pub fn insert(&mut self, key: Vec<u8>, v: V)
        requires
            old(self).wf(),
        ensures
            final(self).wf(),
            forall|k: Seq<u8>| #[trigger]
                final(self).value(k) == (if k == key@ {
                    Some(v)
                } else {
                    old(self).value(k)
                }),
    {
        let b = self.slot(key.as_slice());
        let ghost before = self.buckets@;
        let ghost bucket = self.buckets@[b as int]@;
        let ghost e = (key, v);
        proof {
            assert(distinct(bucket));
        }
        match self.position(b, key.as_slice()) {
            Some(i) => {
                self.buckets[b][i] = (key, v);
                proof {
                    let new = self.buckets@[b as int]@;
                    assert(new =~= bucket.update(i as int, e));
                    lemma_bucket_update(bucket, i as int, e, key@);
                    assert forall|k: Seq<u8>| #[trigger] self.value(k) == (if k == key@ {
                        Some(v)
                    } else {
                        old(self).value(k)
                    }) by {
                        lemma_bucket_range(k, before.len());
                        lemma_bucket_update(bucket, i as int, e, k);
                    }
                }
            },
            None => {
                self.buckets[b].push((key, v));
                proof {
                    let new = self.buckets@[b as int]@;
                    assert(new =~= bucket.push(e));
                    assert(new.drop_last() =~= bucket);
                    assert forall|i: int, j: int| 0 <= i < j < new.len() implies (
                    #[trigger] new[i]).0@ != (#[trigger] new[j]).0@ by {
                        assert(bucket[i].0@ != key@);
                        if j < bucket.len() {
                            assert(bucket[i].0@ != bucket[j].0@);
                        }
                    }
                    assert forall|k: Seq<u8>| #[trigger] self.value(k) == (if k == key@ {
                        Some(v)
                    } else {
                        old(self).value(k)
                    }) by {
                        lemma_bucket_range(k, before.len());
                    }
                }
            },
        }
    }
}

proof fn lemma_bucket_range(key: Seq<u8>, n: nat)
    requires
        n > 0,
    ensures
        0 <= hash_of(key) % n < n,
{
    let h = hash_of(key);
    assert(h % n < n) by (nonlinear_arith)
        requires
            n > 0,
    ;
}

} // verus!
