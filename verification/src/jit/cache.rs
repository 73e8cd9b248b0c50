//! Specialized-kernel cache keyed by (IR fingerprint, runtime shape).

use vstd::prelude::*;

verus! {

/// What a kernel was compiled for.
#[derive(Clone, Debug, PartialEq, Eq, Hash)]
pub struct CacheKey {
    pub ir_hash: u64,
    pub shape: Vec<u32>,
    pub backend: &'static str,
}

/// What a [`CacheKey`] says.
pub struct KeyView {
    pub ir_hash: u64,
    pub shape: Seq<u32>,
    pub backend: Seq<char>,
}

impl View for CacheKey {
    type V = KeyView;

    open spec fn view(&self) -> KeyView {
        KeyView { ir_hash: self.ir_hash, shape: self.shape@, backend: self.backend@ }
    }
}

impl Default for CacheKey {
    fn default() -> (k: Self)
        ensures
            k@ == (KeyView { ir_hash: 0, shape: Seq::<u32>::empty(), backend: ""@ }),
    {
        CacheKey { ir_hash: 0, shape: Vec::new(), backend: "" }
    }
}

impl CacheKey {
    /// Whether two keys are the same.
    pub fn same(&self, other: &CacheKey) -> (b: bool)
        ensures
            b == (self@ == other@),
    {
        if self.ir_hash != other.ir_hash || self.shape.len() != other.shape.len() {
            return false;
        }
        let mut i: usize = 0;
        while i < self.shape.len()
            invariant
                i <= self.shape@.len(),
                self.shape@.len() == other.shape@.len(),
                forall|j: int| 0 <= j < i ==> self.shape@[j] == other.shape@[j],
            decreases self.shape@.len() - i,
        {
            if self.shape[i] != other.shape[i] {
                return false;
            }
            i = i + 1;
        }
        assert(self.shape@ =~= other.shape@);
        let a: String = self.backend.to_string();
        let b: String = other.backend.to_string();
        a == b
    }
}

/// Compiled kernels: for each key an index into the list of modules.
#[derive(Debug)]
pub struct CodeCache {
    entries: Vec<(CacheKey, usize)>,
}

/// The map that a list of entries stands for.
pub open spec fn entry_map(s: Seq<(CacheKey, usize)>) -> Map<KeyView, usize>
    decreases s.len(),
{
    if s.len() == 0 {
        Map::empty()
    } else {
        entry_map(s.drop_last()).insert(s.last().0@, s.last().1)
    }
}

/// No key occurs twice.
pub open spec fn distinct(s: Seq<(CacheKey, usize)>) -> bool {
    forall|i: int, j: int| 0 <= i < j < s.len() ==> (#[trigger] s[i]).0@ != (#[trigger] s[j]).0@
}

proof fn lemma_entry_map(s: Seq<(CacheKey, usize)>)
    requires
        distinct(s),
    ensures
        entry_map(s).dom().finite(),
        entry_map(s).len() == s.len(),
        forall|i: int|
            0 <= i < s.len() ==> entry_map(s).contains_pair((#[trigger] s[i]).0@, s[i].1),
        forall|k: KeyView|
            entry_map(s).contains_key(k) ==> exists|i: int|
                0 <= i < s.len() && (#[trigger] s[i]).0@ == k,
    decreases s.len(),
{
    if s.len() > 0 {
        let t = s.drop_last();
        assert(distinct(t)) by {
            assert forall|i: int, j: int| 0 <= i < j < t.len() implies (#[trigger] t[i]).0@ != (
            #[trigger] t[j]).0@ by {
                assert(t[i] == s[i] && t[j] == s[j]);
            }
        }
        lemma_entry_map(t);
        assert(!entry_map(t).contains_key(s.last().0@)) by {
            if entry_map(t).contains_key(s.last().0@) {
                let i = choose|i: int| 0 <= i < t.len() && (#[trigger] t[i]).0@ == s.last().0@;
                assert(s[i].0@ != s[s.len() - 1].0@);
            }
        }
        assert forall|i: int| 0 <= i < s.len() implies entry_map(s).contains_pair(
            (#[trigger] s[i]).0@,
            s[i].1,
        ) by {
            if i < t.len() {
                assert(t[i] == s[i]);
            }
        }
        assert forall|k: KeyView| entry_map(s).contains_key(k) implies exists|i: int|
            0 <= i < s.len() && (#[trigger] s[i]).0@ == k by {
            if k == s.last().0@ {
                assert(s[s.len() - 1].0@ == k);
            } else {
                let i = choose|i: int| 0 <= i < t.len() && (#[trigger] t[i]).0@ == k;
                assert(s[i].0@ == k);
            }
        }
    }
}

impl View for CodeCache {
    type V = Map<KeyView, usize>;

    closed spec fn view(&self) -> Map<KeyView, usize> {
        entry_map(self.entries@)
    }
}

impl Default for CodeCache {
    fn default() -> (c: Self)
        ensures
            c.wf(),
            c@ == Map::<KeyView, usize>::empty(),
    {
        CodeCache::new()
    }
}

impl CodeCache {
    /// No key occurs twice.
    pub closed spec fn wf(&self) -> bool {
        distinct(self.entries@)
    }

    /// An empty cache.
    pub fn new() -> (c: Self)
        ensures
            c.wf(),
            c@ == Map::<KeyView, usize>::empty(),
    {
        CodeCache { entries: Vec::new() }
    }

    /// Where a key stands in the list.
    fn find(&self, key: &CacheKey) -> (r: Option<usize>)
        requires
            self.wf(),
        ensures
            match r {
                Some(i) => i < self.entries@.len() && self.entries@[i as int].0@ == key@,
                None => forall|i: int|
                    0 <= i < self.entries@.len() ==> (#[trigger] self.entries@[i]).0@ != key@,
            },
    {
        let mut i: usize = 0;
        while i < self.entries.len()
            invariant
                i <= self.entries@.len(),
                forall|j: int| 0 <= j < i ==> (#[trigger] self.entries@[j]).0@ != key@,
            decreases self.entries@.len() - i,
        {
            if self.entries[i].0.same(key) {
                return Some(i);
            }
            i = i + 1;
        }
        None
    }

    /// The index of a key.
    pub fn get(&self, key: &CacheKey) -> (r: Option<usize>)
        requires
            self.wf(),
        ensures
            r == (if self@.contains_key(key@) {
                Some(self@[key@])
            } else {
                None
            }),
    {
        proof {
            lemma_entry_map(self.entries@);
        }
        match self.find(key) {
            Some(i) => {
                let e = &self.entries[i];
                Some(e.1)
            },
            None => None,
        }
    }

    /// Sets the index of a key.
    pub fn insert(&mut self, key: CacheKey, idx: usize)
        requires
            old(self).wf(),
        ensures
            final(self).wf(),
            final(self)@ == old(self)@.insert(key@, idx),
            final(self)@.dom().finite(),
            final(self)@.len() == old(self)@.len() + (if old(self)@.contains_key(key@) {
                0nat
            } else {
                1nat
            }),
    {
        let ghost s = self.entries@;
        proof {
            lemma_entry_map(s);
        }
        match self.find(&key) {
            Some(i) => {
                let ghost kv = key@;
                self.entries[i] = (key, idx);
                proof {
                    let t = self.entries@;
                    assert(t =~= s.update(i as int, (key, idx)));
                    assert(distinct(t)) by {
                        assert forall|a: int, b: int| 0 <= a < b < t.len() implies (
                        #[trigger] t[a]).0@ != (#[trigger] t[b]).0@ by {
                            assert(t[a].0@ == s[a].0@ && t[b].0@ == s[b].0@);
                        }
                    }
                    lemma_update(s, i as int, (key, idx));
                }
            },
            None => {
                self.entries.push((key, idx));
                proof {
                    let t = self.entries@;
                    assert(t.drop_last() =~= s);
                }
            },
        }
    }

    /// How many keys there are.
    pub fn len(&self) -> (n: usize)
        requires
            self.wf(),
        ensures
            n == self@.len(),
            self@.dom().finite(),
    {
        proof {
            lemma_entry_map(self.entries@);
        }
        self.entries.len()
    }

    /// Whether there are no keys.
    pub fn is_empty(&self) -> (b: bool)
        requires
            self.wf(),
        ensures
            b == (self@.len() == 0),
            self@.dom().finite(),
            b == (self@ == Map::<KeyView, usize>::empty()),
    {
        let n: usize = self.len();
        proof {
            if n == 0 {
                assert(self@ =~= Map::<KeyView, usize>::empty());
            }
        }
        n == 0
    }

    /// There are finitely many keys.
    pub proof fn lemma_finite(&self)
        requires
            self.wf(),
        ensures
            self@.dom().finite(),
    {
        lemma_entry_map(self.entries@);
    }
}

/// After an index is set, its key has it and every other key has what it had;
/// there is one key more where the key is new, and there is at least one.
pub proof fn lemma_insert_reads_back(
    before: CodeCache,
    after: CodeCache,
    key: KeyView,
    idx: usize,
)
    requires
        before.wf(),
        after@ == before@.insert(key, idx),
    ensures
        after@.contains_key(key),
        after@[key] == idx,
        forall|k: KeyView|
            k != key ==> {
                &&& #[trigger] after@.contains_key(k) == before@.contains_key(k)
                &&& before@.contains_key(k) ==> after@[k] == before@[k]
            },
        after@.dom().finite(),
        after@.len() == before@.len() + (if before@.contains_key(key) {
            0nat
        } else {
            1nat
        }),
        after@.len() > 0,
{
    before.lemma_finite();
    let d = before@.dom();
    assert(after@.dom() =~= d.insert(key));
    if d.contains(key) {
        assert(d.insert(key) =~= d);
        assert(d.len() > 0) by {
            if d.len() == 0 {
                assert(d =~= Set::<KeyView>::empty());
            }
        }
    }
}

/// Changing the entry of a key changes what the map says of that key alone.
proof fn lemma_update(s: Seq<(CacheKey, usize)>, i: int, e: (CacheKey, usize))
    requires
        distinct(s),
        0 <= i < s.len(),
        s[i].0@ == e.0@,
    ensures
        entry_map(s.update(i, e)) == entry_map(s).insert(e.0@, e.1),
    decreases s.len(),
{
    let t = s.drop_last();
    let u = s.update(i, e);
    if i == s.len() - 1 {
        assert(u.drop_last() =~= t);
        assert(entry_map(u) =~= entry_map(s).insert(e.0@, e.1));
    } else {
        assert(distinct(t)) by {
            assert forall|a: int, b: int| 0 <= a < b < t.len() implies (#[trigger] t[a]).0@ != (
            #[trigger] t[b]).0@ by {
                assert(t[a] == s[a] && t[b] == s[b]);
            }
        }
        assert(t[i] == s[i]);
        lemma_update(t, i, e);
        assert(u.drop_last() =~= t.update(i, e));
        assert(s[i].0@ != s[s.len() - 1].0@);
        assert(entry_map(u) =~= entry_map(s).insert(e.0@, e.1));
    }
}

} // verus!
