//! A small in-memory key-value store over byte keys and byte values.
//!
//! The store is modelled as a mathematical map from key bytes to value
//! bytes; every operation states exactly how it moves that map.

use vstd::prelude::*;

verus! {

/// A stored value: a plain byte vector.
#[derive(Debug, Clone)]
pub struct DBValue(pub Vec<u8>);

impl DBValue {
    /// Wrap a byte vector as a stored value.
    pub fn from_vec(v: Vec<u8>) -> (r: DBValue)
        ensures
            r.0@ =~= v@,
    {
        DBValue(v)
    }
}

/// One key-value pair of the store.
pub struct KvPair {
    pub key: Vec<u8>,
    pub value: Vec<u8>,
}

/// No two pairs share a key.
pub open spec fn spec_unique_keys(s: Seq<KvPair>) -> bool {
    forall|i: int, j: int|
        0 <= i < j < s.len() ==> (#[trigger] s[i]).key@ !~= (#[trigger] s[j]).key@
}

/// The mathematical map a pair list stands for.
pub open spec fn spec_kv_map(s: Seq<KvPair>) -> Map<Seq<u8>, Seq<u8>> {
    Map::new(
        |k: Seq<u8>| exists|i: int| 0 <= i < s.len() && (#[trigger] s[i]).key@ == k,
        |k: Seq<u8>|
            {
                let i = choose|i: int| 0 <= i < s.len() && (#[trigger] s[i]).key@ == k;
                s[i].value@
            },
    )
}

/// An in-memory key-value store.
pub struct Mockkvdb {
    data: Vec<KvPair>,
}

/// Byte-wise equality of two vectors.
fn bytes_eq(a: &Vec<u8>, b: &Vec<u8>) -> (r: bool)
    ensures
        r == (a@ =~= b@),
{
    if a.len() != b.len() {
        return false;
    }
    let mut i: usize = 0;
    while i < a.len()
        invariant
            i <= a@.len(),
            a@.len() == b@.len(),
            forall|j: int| 0 <= j < i ==> a@[j] == b@[j],
        decreases a@.len() - i,
    {
        if a[i] != b[i] {
            return false;
        }
        i = i + 1;
    }
    proof {
        assert(a@ =~= b@);
    }
    true
}

impl Mockkvdb {
    /// The store as a mathematical map.
    pub closed spec fn view(self) -> Map<Seq<u8>, Seq<u8>> {
        spec_kv_map(self.data@)
    }

    /// Keys are unique in the backing list.
    pub closed spec fn wf(self) -> bool {
        spec_unique_keys(self.data@)
    }

    /// An empty store.
    pub fn new_default() -> (r: Mockkvdb)
        ensures
            r.wf(),
            r@ =~= Map::<Seq<u8>, Seq<u8>>::empty(),
    {
        let r = Mockkvdb { data: Vec::new() };
        proof {
            assert(r@ =~= Map::<Seq<u8>, Seq<u8>>::empty());
        }
        r
    }

    /// Position of the pair with the key, if any.
    fn find_index(&self, key: &Vec<u8>) -> (r: Option<usize>)
        ensures
            match r {
                Some(i) => i < self.data@.len() && self.data@[i as int].key@ =~= key@,
                None => forall|j: int|
                    0 <= j < self.data@.len() ==> (#[trigger] self.data@[j]).key@ !~= key@,
            },
    {
        let mut i: usize = 0;
        while i < self.data.len()
            invariant
                i <= self.data@.len(),
                forall|j: int| 0 <= j < i ==> (#[trigger] self.data@[j]).key@ !~= key@,
            decreases self.data@.len() - i,
        {
            if bytes_eq(&self.data[i].key, key) {
                return Some(i);
            }
            i = i + 1;
        }
        None
    }

    /// Store the value under the key, replacing any previous value.
    pub fn put(&mut self, key: &Vec<u8>, value: &DBValue)
        requires
            old(self).wf(),
        ensures
            final(self).wf(),
            final(self)@ =~= old(self)@.insert(key@, value.0@),
    {
        let pair = KvPair { key: clone_bytes(key), value: clone_bytes(&value.0) };
        match self.find_index(key) {
            Some(i) => {
                self.data.remove(i);
                proof {
                    lemma_kv_remove(old(self).data@, i as int);
                }
                let ghost mid = self.data@;
                self.data.push(pair);
                proof {
                    lemma_kv_push(mid, self.data@[self.data@.len() - 1]);
                    assert(self@ =~= old(self)@.insert(key@, value.0@));
                }
            },
            None => {
                let ghost mid = self.data@;
                self.data.push(pair);
                proof {
                    lemma_kv_push(mid, self.data@[self.data@.len() - 1]);
                    assert(self@ =~= old(self)@.insert(key@, value.0@));
                }
            },
        }
    }

    /// The value stored under the key, if any.
    pub fn get(&self, key: &Vec<u8>) -> (r: Option<Vec<u8>>)
        requires
            self.wf(),
        ensures
            match r {
                Some(v) => self@.contains_key(key@) && v@ =~= self@[key@],
                None => !self@.contains_key(key@),
            },
    {
        match self.find_index(key) {
            Some(i) => {
                let v = clone_bytes(&self.data[i].value);
                proof {
                    let j = choose|j: int|
                        0 <= j < self.data@.len() && (#[trigger] self.data@[j]).key@ == key@;
                    assert(j == i as int);
                }
                Some(v)
            },
            None => None,
        }
    }

    /// Drop the key from the store.
    pub fn delete(&mut self, key: &Vec<u8>)
        requires
            old(self).wf(),
        ensures
            final(self).wf(),
            final(self)@ =~= old(self)@.remove(key@),
    {
        match self.find_index(key) {
            Some(i) => {
                self.data.remove(i);
                proof {
                    lemma_kv_remove(old(self).data@, i as int);
                    assert(self@ =~= old(self)@.remove(key@));
                }
            },
            None => {
                proof {
                    assert(self@ =~= old(self)@.remove(key@));
                }
            },
        }
    }
}

/// Copy a byte vector.
fn clone_bytes(v: &Vec<u8>) -> (r: Vec<u8>)
    ensures
        r@ =~= v@,
{
    let mut out: Vec<u8> = Vec::new();
    let mut i: usize = 0;
    while i < v.len()
        invariant
            i <= v@.len(),
            out@ =~= v@.subrange(0, i as int),
        decreases v@.len() - i,
    {
        out.push(v[i]);
        i = i + 1;
    }
    proof {
        assert(out@ =~= v@);
    }
    out
}

/// Appending a pair with a fresh key inserts its binding.
proof fn lemma_kv_push(s: Seq<KvPair>, p: KvPair)
    requires
        spec_unique_keys(s),
        forall|j: int| 0 <= j < s.len() ==> (#[trigger] s[j]).key@ !~= p.key@,
    ensures
        spec_unique_keys(s.push(p)),
        spec_kv_map(s.push(p)) =~= spec_kv_map(s).insert(p.key@, p.value@),
{
    let t = s.push(p);
    assert forall|a: int, b: int| 0 <= a < b < t.len() implies (#[trigger] t[a]).key@ !~= (
    #[trigger] t[b]).key@ by {
        if b < s.len() {
            assert(t[a] == s[a] && t[b] == s[b]);
        } else {
            assert(t[b] == p && t[a] == s[a]);
        }
    }
    let m1 = spec_kv_map(t);
    let m2 = spec_kv_map(s).insert(p.key@, p.value@);
    assert forall|k: Seq<u8>| m1.dom().contains(k) implies m2.dom().contains(k) && m1[k]
        == m2[k] by {
        let i = choose|i: int| 0 <= i < t.len() && (#[trigger] t[i]).key@ == k;
        if i < s.len() {
            assert(s[i].key@ == k);
            let j = choose|j: int| 0 <= j < s.len() && (#[trigger] s[j]).key@ == k;
            assert(j == i);
            let j2 = choose|j2: int| 0 <= j2 < t.len() && (#[trigger] t[j2]).key@ == k;
            if j2 == t.len() - 1 {
                assert(p.key@ == k);
                assert(false);
            }
            assert(j2 == i);
        } else {
            assert(t[i] == p);
            let j2 = choose|j2: int| 0 <= j2 < t.len() && (#[trigger] t[j2]).key@ == k;
            if j2 < s.len() {
                assert(s[j2].key@ == k);
                assert(false);
            }
        }
    }
    assert forall|k: Seq<u8>| m2.dom().contains(k) implies m1.dom().contains(k) by {
        if k == p.key@ {
            assert(t[t.len() - 1].key@ == k);
        } else {
            let i = choose|i: int| 0 <= i < s.len() && (#[trigger] s[i]).key@ == k;
            assert(t[i].key@ == k);
        }
    }
}

/// Removing the pair at a position removes exactly its binding.
proof fn lemma_kv_remove(s: Seq<KvPair>, i: int)
    requires
        spec_unique_keys(s),
        0 <= i < s.len(),
    ensures
        spec_unique_keys(s.remove(i)),
        spec_kv_map(s.remove(i)) =~= spec_kv_map(s).remove(s[i].key@),
        forall|j: int| 0 <= j < s.remove(i).len() ==> (#[trigger] s.remove(i)[j]).key@ !~= s[i].key@,
{
    let t = s.remove(i);
    assert forall|j: int| 0 <= j < t.len() implies (t[j] == if j < i {
        s[j]
    } else {
        s[j + 1]
    }) by {}
    assert forall|a: int, b: int| 0 <= a < b < t.len() implies (#[trigger] t[a]).key@ !~= (
    #[trigger] t[b]).key@ by {
        let sa: int = if a < i {
            a
        } else {
            a + 1
        };
        let sb: int = if b < i {
            b
        } else {
            b + 1
        };
        assert(t[a] == s[sa] && t[b] == s[sb]);
    }
    assert forall|j: int| 0 <= j < t.len() implies (#[trigger] t[j]).key@ !~= s[i].key@ by {
        let sj: int = if j < i {
            j
        } else {
            j + 1
        };
        assert(t[j] == s[sj]);
    }
    let m1 = spec_kv_map(t);
    let m2 = spec_kv_map(s).remove(s[i].key@);
    assert forall|k: Seq<u8>| m1.dom().contains(k) implies m2.dom().contains(k) && m1[k]
        == m2[k] by {
        let a = choose|a: int| 0 <= a < t.len() && (#[trigger] t[a]).key@ == k;
        let sa: int = if a < i {
            a
        } else {
            a + 1
        };
        assert(s[sa].key@ == k);
        assert(k != s[i].key@);
        let b = choose|b: int| 0 <= b < s.len() && (#[trigger] s[b]).key@ == k;
        assert(b == sa);
        let a2 = choose|a2: int| 0 <= a2 < t.len() && (#[trigger] t[a2]).key@ == k;
        let sa2: int = if a2 < i {
            a2
        } else {
            a2 + 1
        };
        assert(t[a2] == s[sa2]);
        assert(sa2 == sa);
    }
    assert forall|k: Seq<u8>| m2.dom().contains(k) implies m1.dom().contains(k) by {
        let b = choose|b: int| 0 <= b < s.len() && (#[trigger] s[b]).key@ == k;
        assert(b != i);
        let a: int = if b < i {
            b
        } else {
            b - 1
        };
        assert(t[a].key@ == k);
    }
}

} // verus!
